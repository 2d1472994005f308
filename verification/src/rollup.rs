//! Daily rollups: per-date usage deltas for segments, the in-memory group-by used
//! when rebuilding rollup tables, the per-date active rebuild, and the decisions
//! about when rollups must be rebuilt or old data removed.

use vstd::prelude::*;
use crate::zone::{
    TimeZoneContext, ZoneError, DailyChunk, is_day_split, split_interval_by_local_day, sum_chunk_seconds,
    interval_covered,
};
use crate::segments::{
    active_overlaps, clip_all, intersect_active_intervals, intersect_spec, total_length, take_started,
    skip_ended,
};
use crate::zone::{max_int, min_int};

verus! {

/// An increment for one row of a daily usage table.
#[derive(Clone, Copy, Debug, PartialEq, Eq, Structural)]
pub struct UsageDelta {
    pub date: i64,
    pub seconds: i64,
    pub segment_count: i64,
}

/// Usage seconds of `[start, end)` per local date (no segment count).
pub fn usage_deltas(start: i64, end: i64, zone: &TimeZoneContext) -> (r: Result<Vec<UsageDelta>, ZoneError>)
    requires
        zone.wf(),
    ensures
        match r {
            Ok(ds) => exists|chunks: Seq<DailyChunk>|
                #![trigger is_day_split(*zone, start as int, end as int, chunks)]
                is_day_split(*zone, start as int, end as int, chunks) && ds@.len() == chunks.len()
                    && forall|k: int|
                    0 <= k < ds@.len() ==> (#[trigger] ds@[k]) == (UsageDelta {
                        date: chunks[k].date,
                        seconds: chunks[k].seconds,
                        segment_count: 0,
                    }),
            Err(_) => end > start && !(zone.covers(start as int) && zone.covers(end - 1)),
        },
        r is Ok <==> (end <= start || (zone.covers(start as int) && zone.covers(end - 1))),
{
    let chunks = split_interval_by_local_day(start, end, zone)?;
    let mut out: Vec<UsageDelta> = Vec::new();
    let mut i: usize = 0;
    while i < chunks.len()
        invariant
            i <= chunks@.len(),
            out@.len() == i,
            forall|k: int|
                0 <= k < i ==> (#[trigger] out@[k]) == (UsageDelta {
                    date: chunks@[k].date,
                    seconds: chunks@[k].seconds,
                    segment_count: 0,
                }),
        decreases chunks@.len() - i,
    {
        out.push(UsageDelta { date: chunks[i].date, seconds: chunks[i].seconds, segment_count: 0 });
        i += 1;
    }
    Ok(out)
}

/// One segment counted on every local date `[start, end)` touches.
pub fn segment_count_deltas(start: i64, end: i64, zone: &TimeZoneContext) -> (r: Result<Vec<UsageDelta>, ZoneError>)
    requires
        zone.wf(),
    ensures
        match r {
            Ok(ds) => exists|chunks: Seq<DailyChunk>|
                #![trigger is_day_split(*zone, start as int, end as int, chunks)]
                is_day_split(*zone, start as int, end as int, chunks) && ds@.len() == chunks.len()
                    && forall|k: int|
                    0 <= k < ds@.len() ==> (#[trigger] ds@[k]) == (UsageDelta {
                        date: chunks[k].date,
                        seconds: 0,
                        segment_count: 1,
                    }),
            Err(_) => end > start && !(zone.covers(start as int) && zone.covers(end - 1)),
        },
        r is Ok <==> (end <= start || (zone.covers(start as int) && zone.covers(end - 1))),
{
    let chunks = split_interval_by_local_day(start, end, zone)?;
    let mut out: Vec<UsageDelta> = Vec::new();
    let mut i: usize = 0;
    while i < chunks.len()
        invariant
            i <= chunks@.len(),
            out@.len() == i,
            forall|k: int|
                0 <= k < i ==> (#[trigger] out@[k]) == (UsageDelta {
                    date: chunks@[k].date,
                    seconds: 0,
                    segment_count: 1,
                }),
        decreases chunks@.len() - i,
    {
        out.push(UsageDelta { date: chunks[i].date, seconds: 0, segment_count: 1 });
        i += 1;
    }
    Ok(out)
}

/// Active usage of `[start, end)`: its overlaps with the active-presence rows, split
/// by local date. When `count_segment` holds, every chunk of the first overlap
/// carries one segment count.
pub open spec fn active_delta_ok(
    zone: TimeZoneContext,
    overlaps: Seq<(i64, i64)>,
    count_segment: bool,
    ds: Seq<UsageDelta>,
) -> bool
    decreases overlaps.len(),
{
    if overlaps.len() == 0 {
        ds.len() == 0
    } else {
        let last = overlaps.last();
        let first_overlap = overlaps.len() == 1;
        exists|n: int, chunks: Seq<DailyChunk>|
            #![trigger is_day_split(zone, last.0 as int, last.1 as int, chunks), ds.subrange(0, n)]
            0 <= n <= ds.len() && is_day_split(zone, last.0 as int, last.1 as int, chunks)
                && ds.len() - n == chunks.len() && active_delta_ok(
                zone,
                overlaps.drop_last(),
                count_segment,
                ds.subrange(0, n),
            ) && forall|k: int|
                0 <= k < chunks.len() ==> ds[n + k] == (UsageDelta {
                    date: (#[trigger] chunks[k]).date,
                    seconds: chunks[k].seconds,
                    segment_count: if count_segment && first_overlap {
                        1
                    } else {
                        0
                    },
                })
    }
}

pub fn active_usage_deltas(
    start: i64,
    end: i64,
    active_rows: &Vec<(i64, i64)>,
    zone: &TimeZoneContext,
    count_segment: bool,
) -> (r: Result<Vec<UsageDelta>, ZoneError>)
    requires
        zone.wf(),
    ensures
        r is Err ==> end > start && exists|k: int|
            0 <= k < clip_all(active_rows@, start as int, end as int).len() && !(zone.covers(
                (#[trigger] clip_all(active_rows@, start as int, end as int)[k]).0 as int,
            ) && zone.covers(clip_all(active_rows@, start as int, end as int)[k].1 - 1)),
        r matches Ok(ds) ==> (end > start ==> active_delta_ok(
            *zone,
            clip_all(active_rows@, start as int, end as int),
            count_segment,
            ds@,
        )) && (end <= start ==> ds@.len() == 0),
{
    let overlaps = active_overlaps(start, end, active_rows);
    let mut out: Vec<UsageDelta> = Vec::new();
    let mut i: usize = 0;
    while i < overlaps.len()
        invariant
            i <= overlaps@.len(),
            zone.wf(),
            overlaps@.len() > 0 ==> end > start && overlaps@ == clip_all(active_rows@, start as int, end as int),
            active_delta_ok(*zone, overlaps@.subrange(0, i as int), count_segment, out@),
        decreases overlaps@.len() - i,
    {
        let (a, b) = overlaps[i];
        let chunks = match split_interval_by_local_day(a, b, zone) {
            Ok(c) => c,
            Err(e) => {
                proof {
                    assert(overlaps@[i as int] == (a, b));
                }
                return Err(e);
            },
        };
        let ghost before = out@;
        let count: i64 = if count_segment && i == 0 {
            1
        } else {
            0
        };
        let mut j: usize = 0;
        while j < chunks.len()
            invariant
                j <= chunks@.len(),
                out@.len() == before.len() + j,
                out@.subrange(0, before.len() as int) == before,
                forall|k: int|
                    0 <= k < j ==> out@[before.len() + k] == (UsageDelta {
                        date: (#[trigger] chunks@[k]).date,
                        seconds: chunks@[k].seconds,
                        segment_count: count,
                    }),
            decreases chunks@.len() - j,
        {
            out.push(UsageDelta { date: chunks[j].date, seconds: chunks[j].seconds, segment_count: count });
            proof {
                assert(out@.subrange(0, before.len() as int) =~= before);
            }
            j += 1;
        }
        proof {
            let ov = overlaps@.subrange(0, i + 1);
            assert(ov.drop_last() =~= overlaps@.subrange(0, i as int));
            assert(ov.last() == (a, b));
            assert(out@.subrange(0, before.len() as int) == before);
            assert(is_day_split(*zone, a as int, b as int, chunks@));
        }
        i += 1;
    }
    proof {
        assert(overlaps@.subrange(0, overlaps@.len() as int) =~= overlaps@);
    }
    Ok(out)
}

// ---------------------------------------------------------------------------
// In-memory group-by of rollup rows
// ---------------------------------------------------------------------------

/// One row of a daily usage table: seconds and segment count of a key on a date.
#[derive(Clone, Debug)]
pub struct RollupRow {
    pub date: i64,
    pub key: String,
    pub label: String,
    pub seconds: i64,
    pub segment_count: i64,
}

pub struct RowView {
    pub date: int,
    pub key: Seq<char>,
    pub label: Seq<char>,
    pub seconds: int,
    pub segment_count: int,
}

impl View for RollupRow {
    type V = RowView;

    open spec fn view(&self) -> RowView {
        RowView {
            date: self.date as int,
            key: self.key@,
            label: self.label@,
            seconds: self.seconds as int,
            segment_count: self.segment_count as int,
        }
    }
}

pub open spec fn rows_view(rows: Seq<RollupRow>) -> Seq<RowView> {
    rows.map_values(|r: RollupRow| r@)
}

/// Index of the row for `(date, key)`, or -1.
pub open spec fn row_index(rows: Seq<RowView>, date: int, key: Seq<char>) -> int
    decreases rows.len(),
{
    if rows.len() == 0 {
        -1
    } else if rows.last().date == date && rows.last().key == key {
        rows.len() - 1
    } else {
        row_index(rows.drop_last(), date, key)
    }
}

/// Adds a contribution: an existing row for the same date and key accumulates its
/// seconds and count and takes its label; otherwise a new row is appended.
pub open spec fn rollup_apply(rows: Seq<RowView>, c: RowView) -> Seq<RowView> {
    let i = row_index(rows, c.date, c.key);
    if i >= 0 {
        rows.update(
            i,
            RowView {
                date: c.date,
                key: c.key,
                label: c.label,
                seconds: rows[i].seconds + c.seconds,
                segment_count: rows[i].segment_count + c.segment_count,
            },
        )
    } else {
        rows.push(c)
    }
}

/// `init` after applying each contribution in turn.
pub open spec fn rollup_fold(init: Seq<RowView>, contributions: Seq<RowView>) -> Seq<RowView>
    decreases contributions.len(),
{
    if contributions.len() == 0 {
        init
    } else {
        rollup_apply(rollup_fold(init, contributions.drop_last()), contributions.last())
    }
}

/// The group-by of a list of contributions.
pub open spec fn rollup_of(contributions: Seq<RowView>) -> Seq<RowView> {
    rollup_fold(Seq::empty(), contributions)
}

pub open spec fn sum_row_seconds(rows: Seq<RowView>) -> int
    decreases rows.len(),
{
    if rows.len() == 0 {
        0
    } else {
        sum_row_seconds(rows.drop_last()) + rows.last().seconds
    }
}

pub open spec fn sum_row_counts(rows: Seq<RowView>) -> int
    decreases rows.len(),
{
    if rows.len() == 0 {
        0
    } else {
        sum_row_counts(rows.drop_last()) + rows.last().segment_count
    }
}

pub open spec fn keys_unique(rows: Seq<RowView>) -> bool {
    forall|i: int, j: int|
        0 <= i < j < rows.len() ==> !((#[trigger] rows[i]).date == (#[trigger] rows[j]).date
            && rows[i].key == rows[j].key)
}

proof fn lemma_row_index(rows: Seq<RowView>, date: int, key: Seq<char>)
    ensures
        -1 <= row_index(rows, date, key) < rows.len(),
        row_index(rows, date, key) >= 0 ==> rows[row_index(rows, date, key)].date == date
            && rows[row_index(rows, date, key)].key == key,
        row_index(rows, date, key) < 0 ==> forall|i: int|
            0 <= i < rows.len() ==> !((#[trigger] rows[i]).date == date && rows[i].key == key),
    decreases rows.len(),
{
    if rows.len() > 0 {
        lemma_row_index(rows.drop_last(), date, key);
        if !(rows.last().date == date && rows.last().key == key) {
            assert forall|i: int| 0 <= i < rows.len() - 1 implies rows[i] == rows.drop_last()[i] by {}
        }
    }
}

proof fn lemma_sum_update(rows: Seq<RowView>, i: int, r: RowView)
    requires
        0 <= i < rows.len(),
    ensures
        sum_row_seconds(rows.update(i, r)) == sum_row_seconds(rows) - rows[i].seconds + r.seconds,
        sum_row_counts(rows.update(i, r)) == sum_row_counts(rows) - rows[i].segment_count
            + r.segment_count,
    decreases rows.len(),
{
    if i == rows.len() - 1 {
        assert(rows.update(i, r).drop_last() =~= rows.drop_last());
    } else {
        assert(rows.update(i, r).drop_last() =~= rows.drop_last().update(i, r));
        lemma_sum_update(rows.drop_last(), i, r);
    }
}

proof fn lemma_sum_push_rows(rows: Seq<RowView>, r: RowView)
    ensures
        sum_row_seconds(rows.push(r)) == sum_row_seconds(rows) + r.seconds,
        sum_row_counts(rows.push(r)) == sum_row_counts(rows) + r.segment_count,
{
    assert(rows.push(r).drop_last() =~= rows);
}

/// Applying a contribution adds exactly its seconds and count to the totals and
/// keeps one row per (date, key).
pub proof fn lemma_rollup_apply(rows: Seq<RowView>, c: RowView)
    requires
        keys_unique(rows),
    ensures
        keys_unique(rollup_apply(rows, c)),
        sum_row_seconds(rollup_apply(rows, c)) == sum_row_seconds(rows) + c.seconds,
        sum_row_counts(rollup_apply(rows, c)) == sum_row_counts(rows) + c.segment_count,
{
    lemma_row_index(rows, c.date, c.key);
    let i = row_index(rows, c.date, c.key);
    if i >= 0 {
        let nr = RowView {
            date: c.date,
            key: c.key,
            label: c.label,
            seconds: rows[i].seconds + c.seconds,
            segment_count: rows[i].segment_count + c.segment_count,
        };
        lemma_sum_update(rows, i, nr);
        let out = rows.update(i, nr);
        assert forall|a: int, b: int| 0 <= a < b < out.len() implies !((#[trigger] out[a]).date
            == (#[trigger] out[b]).date && out[a].key == out[b].key) by {
            if a != i && b != i {
                assert(out[a] == rows[a] && out[b] == rows[b]);
            } else if a == i {
                assert(out[b] == rows[b]);
            } else {
                assert(out[a] == rows[a]);
            }
        }
    } else {
        lemma_sum_push_rows(rows, c);
        let out = rows.push(c);
        assert forall|a: int, b: int| 0 <= a < b < out.len() implies !((#[trigger] out[a]).date
            == (#[trigger] out[b]).date && out[a].key == out[b].key) by {
            if b < rows.len() {
                assert(out[a] == rows[a] && out[b] == rows[b]);
            } else {
                assert(out[a] == rows[a]);
            }
        }
    }
}

/// Grouping never loses or invents usage: the rows' seconds and counts add up to the
/// contributions' totals, with one row per (date, key).
pub proof fn law_rollup_preserves_totals(contributions: Seq<RowView>)
    ensures
        keys_unique(rollup_of(contributions)),
        sum_row_seconds(rollup_of(contributions)) == sum_row_seconds(contributions),
        sum_row_counts(rollup_of(contributions)) == sum_row_counts(contributions),
{
    lemma_rollup_fold(Seq::empty(), contributions);
}

/// Folding contributions into rows adds their totals and keeps one row per
/// (date, key).
pub proof fn lemma_rollup_fold(init: Seq<RowView>, contributions: Seq<RowView>)
    requires
        keys_unique(init),
    ensures
        keys_unique(rollup_fold(init, contributions)),
        sum_row_seconds(rollup_fold(init, contributions)) == sum_row_seconds(init) + sum_row_seconds(contributions),
        sum_row_counts(rollup_fold(init, contributions)) == sum_row_counts(init) + sum_row_counts(contributions),
    decreases contributions.len(),
{
    if contributions.len() > 0 {
        lemma_rollup_fold(init, contributions.drop_last());
        lemma_rollup_apply(rollup_fold(init, contributions.drop_last()), contributions.last());
    }
}

/// No row has negative seconds or counts.
pub open spec fn nonneg_rows(rows: Seq<RowView>) -> bool {
    forall|i: int| 0 <= i < rows.len() ==> (#[trigger] rows[i]).seconds >= 0 && rows[i].segment_count >= 0
}

proof fn lemma_fold_nonneg(init: Seq<RowView>, contributions: Seq<RowView>)
    requires
        nonneg_rows(init),
        nonneg_rows(contributions),
    ensures
        nonneg_rows(rollup_fold(init, contributions)),
    decreases contributions.len(),
{
    if contributions.len() > 0 {
        let cs = contributions.drop_last();
        assert forall|i: int| 0 <= i < cs.len() implies (#[trigger] cs[i]).seconds >= 0 && cs[i].segment_count >= 0 by {
            assert(cs[i] == contributions[i]);
        }
        lemma_fold_nonneg(init, cs);
        let rows = rollup_fold(init, cs);
        let c = contributions.last();
        lemma_row_index(rows, c.date, c.key);
    }
}

proof fn lemma_fold_append(init: Seq<RowView>, a: Seq<RowView>, b: Seq<RowView>)
    ensures
        rollup_fold(init, a + b) == rollup_fold(rollup_fold(init, a), b),
    decreases b.len(),
{
    if b.len() == 0 {
        assert(a + b =~= a);
    } else {
        assert((a + b).drop_last() =~= a + b.drop_last());
        assert((a + b).last() == b.last());
        lemma_fold_append(init, a, b.drop_last());
    }
}

proof fn lemma_row_le_sum(rows: Seq<RowView>, i: int)
    requires
        nonneg_rows(rows),
        0 <= i < rows.len(),
    ensures
        rows[i].seconds <= sum_row_seconds(rows),
        rows[i].segment_count <= sum_row_counts(rows),
        sum_row_seconds(rows) >= 0,
        sum_row_counts(rows) >= 0,
    decreases rows.len(),
{
    let d = rows.drop_last();
    assert forall|k: int| 0 <= k < d.len() implies (#[trigger] d[k]).seconds >= 0 && d[k].segment_count >= 0 by {
        assert(d[k] == rows[k]);
    }
    lemma_sums_nonneg(d);
    if i < rows.len() - 1 {
        lemma_row_le_sum(d, i);
        assert(d[i] == rows[i]);
    }
}

proof fn lemma_sums_nonneg(rows: Seq<RowView>)
    requires
        nonneg_rows(rows),
    ensures
        sum_row_seconds(rows) >= 0,
        sum_row_counts(rows) >= 0,
    decreases rows.len(),
{
    if rows.len() > 0 {
        let d = rows.drop_last();
        assert forall|k: int| 0 <= k < d.len() implies (#[trigger] d[k]).seconds >= 0 && d[k].segment_count >= 0 by {
            assert(d[k] == rows[k]);
        }
        lemma_sums_nonneg(d);
    }
}

proof fn lemma_sum_concat(a: Seq<RowView>, b: Seq<RowView>)
    ensures
        sum_row_seconds(a + b) == sum_row_seconds(a) + sum_row_seconds(b),
        sum_row_counts(a + b) == sum_row_counts(a) + sum_row_counts(b),
    decreases b.len(),
{
    if b.len() == 0 {
        assert(a + b =~= a);
    } else {
        assert((a + b).drop_last() =~= a + b.drop_last());
        lemma_sum_concat(a, b.drop_last());
    }
}

/// Adds one contribution to the rows.
pub fn rollup_add(rows: &mut Vec<RollupRow>, c: RollupRow)
    requires
        forall|i: int| 0 <= i < old(rows)@.len() ==> {
            &&& i64::MIN <= (#[trigger] old(rows)@[i]).seconds + c.seconds <= i64::MAX
            &&& i64::MIN <= old(rows)@[i].segment_count + c.segment_count <= i64::MAX
        },
    ensures
        rows_view(final(rows)@) == rollup_apply(rows_view(old(rows)@), c@),
{
    let ghost v = rows_view(rows@);
    proof {
        lemma_row_index(v, c.date as int, c.key@);
    }
    let n = rows.len();
    let mut j: usize = n;
    assert(v.subrange(0, n as int) =~= v);
    while j > 0
        invariant
            j <= n,
            n == rows@.len(),
            v == rows_view(rows@),
            rows@ == old(rows)@,
            forall|i: int| 0 <= i < rows@.len() ==> {
                &&& i64::MIN <= (#[trigger] rows@[i]).seconds + c.seconds <= i64::MAX
                &&& i64::MIN <= rows@[i].segment_count + c.segment_count <= i64::MAX
            },
            row_index(v, c.date as int, c.key@) == row_index(v.subrange(0, j as int), c.date as int, c.key@),
        decreases j,
    {
        let r = &rows[j - 1];
        proof {
            let s = v.subrange(0, j as int);
            assert(s.last() == v[j - 1]);
            assert(s.drop_last() =~= v.subrange(0, j - 1));
        }
        if r.date == c.date && r.key == c.key {
            let updated = RollupRow {
                date: c.date,
                key: c.key,
                label: c.label,
                seconds: r.seconds + c.seconds,
                segment_count: r.segment_count + c.segment_count,
            };
            rows.set(j - 1, updated);
            proof {
                assert(rows_view(rows@) =~= rollup_apply(v, c@));
            }
            return;
        }
        j -= 1;
    }
    proof {
        assert(v.subrange(0, 0) =~= Seq::<RowView>::empty());
    }
    rows.push(c);
    proof {
        assert(rows_view(rows@) =~= v.push(c@));
    }
}

/// Rows that every rebuild keeps: one per (date, key), none negative.
pub open spec fn rows_ok(rows: Seq<RowView>) -> bool {
    keys_unique(rows) && nonneg_rows(rows)
}

/// Adds a non-negative contribution that keeps the totals within `i64`.
fn rollup_add_within(rows: &mut Vec<RollupRow>, c: RollupRow)
    requires
        rows_ok(rows_view(old(rows)@)),
        c.seconds >= 0 && c.segment_count >= 0,
        sum_row_seconds(rows_view(old(rows)@)) + c.seconds <= i64::MAX,
        sum_row_counts(rows_view(old(rows)@)) + c.segment_count <= i64::MAX,
    ensures
        rows_view(final(rows)@) == rollup_apply(rows_view(old(rows)@), c@),
        rows_ok(rows_view(final(rows)@)),
        sum_row_seconds(rows_view(final(rows)@)) == sum_row_seconds(rows_view(old(rows)@)) + c.seconds,
        sum_row_counts(rows_view(final(rows)@)) == sum_row_counts(rows_view(old(rows)@)) + c.segment_count,
{
    let ghost v = rows_view(rows@);
    proof {
        assert forall|i: int| 0 <= i < rows@.len() implies {
            &&& i64::MIN <= (#[trigger] rows@[i]).seconds + c.seconds <= i64::MAX
            &&& i64::MIN <= rows@[i].segment_count + c.segment_count <= i64::MAX
        } by {
            assert(v[i] == rows@[i]@);
            lemma_row_le_sum(v, i);
        }
        lemma_rollup_apply(v, c@);
        assert(seq![c@].drop_last() =~= Seq::<RowView>::empty());
        assert(rollup_fold(v, Seq::<RowView>::empty()) == v);
        assert(rollup_fold(v, seq![c@]) == rollup_apply(v, c@));
        lemma_fold_nonneg(v, seq![c@]);
    }
    rollup_add(rows, c);
}

/// A segment as read for a rebuild: its grouping key, label and bounds.
#[derive(Clone, Debug)]
pub struct SegmentRow {
    pub key: String,
    pub label: String,
    pub started_at: i64,
    pub effective_end: i64,
}

/// The chunks `split_interval_by_local_day` yields for `[start, end)`.
pub open spec fn day_split_spec(z: TimeZoneContext, start: int, end: int) -> Seq<DailyChunk> {
    if end <= start {
        Seq::empty()
    } else {
        let first = z.local_day(start);
        Seq::new(
            (z.local_day(end - 1) - first + 1) as nat,
            |k: int| DailyChunk { date: (first + k) as i64, seconds: z.overlap_on_day(start, end, first + k) as i64 },
        )
    }
}

proof fn lemma_day_split_unique(z: TimeZoneContext, start: int, end: int, chunks: Seq<DailyChunk>)
    requires
        is_day_split(z, start, end, chunks),
    ensures
        chunks == day_split_spec(z, start, end),
{
    assert(chunks =~= day_split_spec(z, start, end));
}

/// The contributions of one segment's chunks.
pub open spec fn chunk_contributions(key: Seq<char>, label: Seq<char>, chunks: Seq<DailyChunk>, count_segment: bool) -> Seq<RowView> {
    chunks.map_values(|c: DailyChunk| RowView {
        date: c.date as int,
        key,
        label,
        seconds: c.seconds as int,
        segment_count: if count_segment { 1 } else { 0 },
    })
}

/// The contributions of every segment, in order, each split by local date and
/// counted once per date it touches.
pub open spec fn daily_contributions(z: TimeZoneContext, segments: Seq<SegmentRow>) -> Seq<RowView>
    decreases segments.len(),
{
    if segments.len() == 0 {
        Seq::empty()
    } else {
        let s = segments.last();
        daily_contributions(z, segments.drop_last()) + chunk_contributions(
            s.key@,
            s.label@,
            day_split_spec(z, s.started_at as int, s.effective_end as int),
            true,
        )
    }
}

/// Seconds a segment lasts (none when it ends before it starts).
pub open spec fn span(s: SegmentRow) -> int {
    if s.effective_end > s.started_at {
        s.effective_end - s.started_at
    } else {
        0
    }
}

pub open spec fn total_span(segments: Seq<SegmentRow>) -> int
    decreases segments.len(),
{
    if segments.len() == 0 {
        0
    } else {
        total_span(segments.drop_last()) + span(segments.last())
    }
}

proof fn lemma_total_span_prefix(segments: Seq<SegmentRow>, i: int)
    requires
        0 <= i <= segments.len(),
    ensures
        0 <= total_span(segments.subrange(0, i)) <= total_span(segments),
    decreases segments.len() - i,
{
    if i < segments.len() {
        lemma_total_span_prefix(segments, i + 1);
        let p = segments.subrange(0, i + 1);
        assert(p.drop_last() =~= segments.subrange(0, i));
        lemma_total_span_nonneg(segments.subrange(0, i));
    } else {
        assert(segments.subrange(0, i) =~= segments);
        lemma_total_span_nonneg(segments);
    }
}

proof fn lemma_total_span_nonneg(segments: Seq<SegmentRow>)
    ensures
        total_span(segments) >= 0,
    decreases segments.len(),
{
    if segments.len() > 0 {
        lemma_total_span_nonneg(segments.drop_last());
    }
}

proof fn lemma_chunk_prefix(chunks: Seq<DailyChunk>, j: int)
    requires
        0 <= j <= chunks.len(),
        forall|k: int| 0 <= k < chunks.len() ==> (#[trigger] chunks[k]).seconds > 0,
    ensures
        j <= sum_chunk_seconds(chunks.subrange(0, j)) <= sum_chunk_seconds(chunks),
    decreases chunks.len() - j,
{
    if j < chunks.len() {
        lemma_chunk_prefix(chunks, j + 1);
        let p = chunks.subrange(0, j + 1);
        assert(p.drop_last() =~= chunks.subrange(0, j));
        assert(p.last() == chunks[j]);
        let q = chunks.subrange(0, j);
        assert forall|k: int| 0 <= k < q.len() implies (#[trigger] q[k]).seconds > 0 by {
            assert(q[k] == chunks[k]);
        }
        lemma_chunk_count(q);
    } else {
        assert(chunks.subrange(0, j) =~= chunks);
        lemma_chunk_count(chunks);
    }
}

proof fn lemma_chunk_count(chunks: Seq<DailyChunk>)
    requires
        forall|k: int| 0 <= k < chunks.len() ==> (#[trigger] chunks[k]).seconds > 0,
    ensures
        chunks.len() <= sum_chunk_seconds(chunks),
    decreases chunks.len(),
{
    if chunks.len() > 0 {
        let d = chunks.drop_last();
        assert forall|k: int| 0 <= k < d.len() implies (#[trigger] d[k]).seconds > 0 by {
            assert(d[k] == chunks[k]);
        }
        lemma_chunk_count(d);
    }
}

/// Adds the chunks of one segment `[start, end)` under `key`, each carrying one
/// segment count when `count_segment` holds. The rows are left
/// unchanged when the time zone cannot split the interval.
pub fn add_rollup_chunks(
    rows: &mut Vec<RollupRow>,
    key: &String,
    label: &String,
    start: i64,
    end: i64,
    zone: &TimeZoneContext,
    count_segment: bool,
) -> (r: Result<(), ZoneError>)
    requires
        zone.wf(),
        rows_ok(rows_view(old(rows)@)),
        sum_row_seconds(rows_view(old(rows)@)) + (if end > start { end - start } else { 0 }) <= i64::MAX,
        sum_row_counts(rows_view(old(rows)@)) + (if end > start { end - start } else { 0 }) <= i64::MAX,
    ensures
        match r {
            Ok(()) => {
                &&& rows_view(final(rows)@) == rollup_fold(
                    rows_view(old(rows)@),
                    chunk_contributions(key@, label@, day_split_spec(*zone, start as int, end as int), count_segment),
                )
                &&& rows_ok(rows_view(final(rows)@))
                &&& sum_row_seconds(rows_view(final(rows)@)) == sum_row_seconds(rows_view(old(rows)@))
                    + (if end > start { end - start } else { 0 })
                &&& sum_row_counts(rows_view(final(rows)@)) <= sum_row_counts(rows_view(old(rows)@))
                    + (if end > start { end - start } else { 0 })
            },
            Err(_) => !interval_covered(*zone, start as int, end as int) && final(rows)@ == old(rows)@,
        },
        r is Ok <==> interval_covered(*zone, start as int, end as int),
{
    proof {
        reveal(interval_covered);
    }
    let chunks = split_interval_by_local_day(start, end, zone)?;
    proof {
        lemma_day_split_unique(*zone, start as int, end as int, chunks@);
    }
    let ghost base = rows_view(rows@);
    let ghost n = chunks@.len();
    let count: i64 = if count_segment {
        1
    } else {
        0
    };
    let mut j: usize = 0;
    while j < chunks.len()
        invariant
            j <= chunks@.len(),
            n == chunks@.len(),
            is_day_split(*zone, start as int, end as int, chunks@),
            sum_chunk_seconds(chunks@) == if end > start { end - start } else { 0 },
            count == (if count_segment { 1int } else { 0int }),
            rows_ok(rows_view(rows@)),
            rows_view(rows@) == rollup_fold(
                base,
                chunk_contributions(key@, label@, chunks@.subrange(0, j as int), count_segment),
            ),
            sum_row_seconds(rows_view(rows@)) == sum_row_seconds(base) + sum_chunk_seconds(chunks@.subrange(0, j as int)),
            sum_row_counts(rows_view(rows@)) <= sum_row_counts(base) + j,
            sum_row_seconds(base) + sum_chunk_seconds(chunks@) <= i64::MAX,
            sum_row_counts(base) + sum_chunk_seconds(chunks@) <= i64::MAX,
        decreases chunks@.len() - j,
    {
        let c = chunks[j];
        proof {
            lemma_chunk_prefix(chunks@, j + 1);
            let p = chunks@.subrange(0, j + 1);
            assert(p.drop_last() =~= chunks@.subrange(0, j as int));
            assert(p.last() == c);
        }
        let contribution = RollupRow {
            date: c.date,
            key: key.clone(),
            label: label.clone(),
            seconds: c.seconds,
            segment_count: count,
        };
        rollup_add_within(rows, contribution);
        proof {
            let prev = chunk_contributions(key@, label@, chunks@.subrange(0, j as int), count_segment);
            let next = chunk_contributions(key@, label@, chunks@.subrange(0, j + 1), count_segment);
            assert(next.drop_last() =~= prev);
            assert(next.last() == contribution@);
        }
        j += 1;
    }
    proof {
        assert(chunks@.subrange(0, n as int) =~= chunks@);
        lemma_chunk_count(chunks@);
    }
    Ok(())
}

/// The time zone places both ends of the segment (or it is empty).
pub open spec fn segment_covered(z: TimeZoneContext, s: SegmentRow) -> bool {
    interval_covered(z, s.started_at as int, s.effective_end as int)
}

/// Every segment is covered.
#[verifier::opaque]
pub open spec fn all_covered(z: TimeZoneContext, segments: Seq<SegmentRow>) -> bool {
    forall|k: int| 0 <= k < segments.len() ==> segment_covered(z, #[trigger] segments[k])
}

proof fn lemma_all_covered_empty(z: TimeZoneContext, segments: Seq<SegmentRow>)
    ensures
        all_covered(z, segments.subrange(0, 0)),
{
    reveal(all_covered);
}

proof fn lemma_all_covered_elim(z: TimeZoneContext, segments: Seq<SegmentRow>)
    requires
        all_covered(z, segments),
    ensures
        forall|k: int| 0 <= k < segments.len() ==> segment_covered(z, #[trigger] segments[k]),
{
    reveal(all_covered);
}

proof fn lemma_all_covered_push(z: TimeZoneContext, segments: Seq<SegmentRow>, i: int)
    requires
        0 <= i < segments.len(),
        all_covered(z, segments.subrange(0, i)),
        segment_covered(z, segments[i]),
    ensures
        all_covered(z, segments.subrange(0, i + 1)),
{
    reveal(all_covered);
    let p = segments.subrange(0, i + 1);
    assert forall|k: int| 0 <= k < p.len() implies segment_covered(z, #[trigger] p[k]) by {
        if k < i {
            assert(p[k] == segments.subrange(0, i)[k]);
        }
    }
}

/// The daily rollup rows of all segments, as a full rebuild writes them: each
/// segment split by local date and grouped by (date, key), every segment counted
/// once on each date it touches.
pub fn daily_rollup_rows(segments: &Vec<SegmentRow>, zone: &TimeZoneContext) -> (r: Result<Vec<RollupRow>, ZoneError>)
    requires
        zone.wf(),
        total_span(segments@) <= i64::MAX,
    ensures
        match r {
            Ok(rows) => rows_view(rows@) == rollup_of(daily_contributions(*zone, segments@))
                && sum_row_seconds(rows_view(rows@)) == total_span(segments@)
                && keys_unique(rows_view(rows@)),
            Err(_) => exists|i: int| 0 <= i < segments@.len() && !segment_covered(*zone, #[trigger] segments@[i]),
        },
        r is Ok ==> forall|i: int|
            0 <= i < segments@.len() ==> segment_covered(*zone, #[trigger] segments@[i]),
{
    let mut rows: Vec<RollupRow> = Vec::new();
    let mut i: usize = 0;
    proof {
        assert(rows_view(rows@) =~= Seq::<RowView>::empty());
        assert(segments@.subrange(0, 0) =~= Seq::<SegmentRow>::empty());
        lemma_all_covered_empty(*zone, segments@);
    }
    while i < segments.len()
        invariant
            i <= segments@.len(),
            zone.wf(),
            total_span(segments@) <= i64::MAX,
            rows_ok(rows_view(rows@)),
            rows_view(rows@) == rollup_of(daily_contributions(*zone, segments@.subrange(0, i as int))),
            sum_row_seconds(rows_view(rows@)) == total_span(segments@.subrange(0, i as int)),
            all_covered(*zone, segments@.subrange(0, i as int)),
            sum_row_counts(rows_view(rows@)) <= total_span(segments@.subrange(0, i as int)),
        decreases segments@.len() - i,
    {
        let seg = &segments[i];
        proof {
            lemma_total_span_prefix(segments@, i + 1);
            let p = segments@.subrange(0, i + 1);
            assert(p.drop_last() =~= segments@.subrange(0, i as int));
            assert(p.last() == *seg);
        }
        let ghost before = rows_view(rows@);
        match add_rollup_chunks(&mut rows, &seg.key, &seg.label, seg.started_at, seg.effective_end, zone, true) {
            Ok(()) => {},
            Err(e) => {
                proof {
                    assert(!segment_covered(*zone, segments@[i as int]));
                }
                return Err(e);
            },
        }
        proof {
            let prev = daily_contributions(*zone, segments@.subrange(0, i as int));
            let cc = chunk_contributions(
                seg.key@,
                seg.label@,
                day_split_spec(*zone, seg.started_at as int, seg.effective_end as int),
                true,
            );
            lemma_fold_append(Seq::empty(), prev, cc);
            assert(segment_covered(*zone, segments@[i as int]));
            lemma_all_covered_push(*zone, segments@, i as int);
        }
        i += 1;
    }
    proof {
        assert(segments@.subrange(0, segments@.len() as int) =~= segments@);
        lemma_all_covered_elim(*zone, segments@);
    }
    Ok(rows)
}

/// Every interval has positive length.
pub open spec fn all_positive(s: Seq<(i64, i64)>) -> bool {
    forall|i: int| 0 <= i < s.len() ==> (#[trigger] s[i]).0 < s[i].1
}

proof fn lemma_clip_positive(s: Seq<(i64, i64)>, start: int, end: int)
    ensures
        all_positive(clip_all(s, start, end)),
    decreases s.len(),
{
    if s.len() > 0 {
        lemma_clip_positive(s.drop_first(), start, end);
        let lo = max_int(start, s[0].0 as int);
        let hi = min_int(end, s[0].1 as int);
        let rest = clip_all(s.drop_first(), start, end);
        if hi > lo {
            let out = seq![(lo as i64, hi as i64)] + rest;
            assert forall|i: int| 0 <= i < out.len() implies (#[trigger] out[i]).0 < out[i].1 by {
                if i > 0 {
                    assert(out[i] == rest[i - 1]);
                }
            }
        }
    }
}

proof fn lemma_total_length_suffix(s: Seq<(i64, i64)>, k: int)
    requires
        all_positive(s),
        0 <= k <= s.len(),
    ensures
        0 <= total_length(s.subrange(k, s.len() as int)) <= total_length(s),
    decreases k,
{
    if k > 0 {
        lemma_total_length_suffix(s, k - 1);
        let t = s.subrange(k - 1, s.len() as int);
        assert(t.drop_first() =~= s.subrange(k, s.len() as int));
        assert(t[0] == s[k - 1]);
        let u = s.subrange(k, s.len() as int);
        assert forall|i: int| 0 <= i < u.len() implies (#[trigger] u[i]).0 < u[i].1 by {
            assert(u[i] == s[k + i]);
        }
        lemma_total_length_nonneg(u);
    } else {
        assert(s.subrange(0, s.len() as int) =~= s);
        lemma_total_length_nonneg(s);
    }
}

proof fn lemma_total_length_nonneg(s: Seq<(i64, i64)>)
    requires
        all_positive(s),
    ensures
        total_length(s) >= 0,
    decreases s.len(),
{
    if s.len() > 0 {
        let t = s.drop_first();
        assert forall|i: int| 0 <= i < t.len() implies (#[trigger] t[i]).0 < t[i].1 by {
            assert(t[i] == s[i + 1]);
        }
        lemma_total_length_nonneg(t);
    }
}

/// The summed length of intervals of positive length.
fn overlap_seconds(ov: &Vec<(i64, i64)>) -> (r: i64)
    requires
        all_positive(ov@),
        total_length(ov@) <= i64::MAX,
    ensures
        r == total_length(ov@),
{
    let n = ov.len();
    let mut k: usize = n;
    let mut acc: i64 = 0;
    proof {
        assert(ov@.subrange(n as int, n as int) =~= Seq::<(i64, i64)>::empty());
    }
    while k > 0
        invariant
            k <= n,
            n == ov@.len(),
            all_positive(ov@),
            total_length(ov@) <= i64::MAX,
            acc == total_length(ov@.subrange(k as int, n as int)),
        decreases k,
    {
        let (a, b) = ov[k - 1];
        proof {
            lemma_total_length_suffix(ov@, k - 1);
            lemma_total_length_suffix(ov@, k as int);
            let t = ov@.subrange(k - 1, n as int);
            assert(t.drop_first() =~= ov@.subrange(k as int, n as int));
            assert(t[0] == ov@[k - 1]);
        }
        acc = acc + (b - a);
        k -= 1;
    }
    proof {
        assert(ov@.subrange(0, n as int) =~= ov@);
    }
    acc
}

/// The active part of a segment on one local date `[day_start, day_end)`: its
/// overlaps with the active-presence intervals.
pub open spec fn active_part(day_start: int, day_end: int, s: SegmentRow, active: Seq<(i64, i64)>) -> Seq<(i64, i64)> {
    intersect_spec(max_int(day_start, s.started_at as int), min_int(day_end, s.effective_end as int), active)
}

/// A segment's contribution to the active rollup of date `date`: its active
/// seconds and one segment count, when it was active at all that day.
pub open spec fn active_contribution(date: i64, day_start: int, day_end: int, s: SegmentRow, active: Seq<(i64, i64)>) -> Seq<RowView> {
    let ov = active_part(day_start, day_end, s, active);
    if ov.len() == 0 {
        Seq::empty()
    } else {
        seq![RowView { date: date as int, key: s.key@, label: s.label@, seconds: total_length(ov), segment_count: 1 }]
    }
}

pub open spec fn active_day_contributions(
    date: i64,
    day_start: int,
    day_end: int,
    segments: Seq<SegmentRow>,
    active: Seq<(i64, i64)>,
) -> Seq<RowView>
    decreases segments.len(),
{
    if segments.len() == 0 {
        Seq::empty()
    } else {
        active_day_contributions(date, day_start, day_end, segments.drop_last(), active) + active_contribution(
            date,
            day_start,
            day_end,
            segments.last(),
            active,
        )
    }
}

proof fn lemma_active_contribution_nonneg(date: i64, day_start: int, day_end: int, s: SegmentRow, active: Seq<(i64, i64)>)
    ensures
        nonneg_rows(active_contribution(date, day_start, day_end, s, active)),
{
    let lo = max_int(day_start, s.started_at as int);
    let hi = min_int(day_end, s.effective_end as int);
    if hi > lo {
        lemma_clip_positive(take_started(skip_ended(active, lo), hi), lo, hi);
        lemma_total_length_nonneg(active_part(day_start, day_end, s, active));
    }
}

proof fn lemma_active_contributions_nonneg(date: i64, day_start: int, day_end: int, segments: Seq<SegmentRow>, active: Seq<(i64, i64)>)
    ensures
        nonneg_rows(active_day_contributions(date, day_start, day_end, segments, active)),
    decreases segments.len(),
{
    if segments.len() > 0 {
        lemma_active_contributions_nonneg(date, day_start, day_end, segments.drop_last(), active);
        let s = segments.last();
        lemma_active_contribution_nonneg(date, day_start, day_end, s, active);
        let a = active_day_contributions(date, day_start, day_end, segments.drop_last(), active);
        let b = active_contribution(date, day_start, day_end, s, active);
        assert forall|i: int| 0 <= i < (a + b).len() implies (#[trigger] (a + b)[i]).seconds >= 0 && (a
            + b)[i].segment_count >= 0 by {
            if i < a.len() {
                assert((a + b)[i] == a[i]);
            } else {
                assert((a + b)[i] == b[i - a.len()]);
            }
        }
    }
}

proof fn lemma_contributions_prefix_sum(date: i64, day_start: int, day_end: int, segments: Seq<SegmentRow>, active: Seq<(i64, i64)>, i: int)
    requires
        0 <= i <= segments.len(),
    ensures
        sum_row_seconds(active_day_contributions(date, day_start, day_end, segments.subrange(0, i), active))
            <= sum_row_seconds(active_day_contributions(date, day_start, day_end, segments, active)),
        sum_row_counts(active_day_contributions(date, day_start, day_end, segments.subrange(0, i), active))
            <= sum_row_counts(active_day_contributions(date, day_start, day_end, segments, active)),
    decreases segments.len() - i,
{
    if i < segments.len() {
        lemma_contributions_prefix_sum(date, day_start, day_end, segments, active, i + 1);
        let p = segments.subrange(0, i + 1);
        assert(p.drop_last() =~= segments.subrange(0, i));
        let a = active_day_contributions(date, day_start, day_end, segments.subrange(0, i), active);
        let b = active_contribution(date, day_start, day_end, p.last(), active);
        lemma_sum_concat(a, b);
        lemma_active_contribution_nonneg(date, day_start, day_end, p.last(), active);
        lemma_sums_nonneg(b);
    } else {
        assert(segments.subrange(0, i) =~= segments);
    }
}

/// The active rollup rows of one local date `date` spanning `[day_start, day_end)`:
/// each segment clipped to the day and intersected with the start-ordered
/// active-presence intervals; segments with an active part are grouped by key,
/// adding their active seconds and counting each once.
pub fn active_day_rows(
    date: i64,
    day_start: i64,
    day_end: i64,
    segments: &Vec<SegmentRow>,
    active: &Vec<(i64, i64)>,
) -> (r: Vec<RollupRow>)
    requires
        sum_row_seconds(active_day_contributions(date, day_start as int, day_end as int, segments@, active@)) <= i64::MAX,
        sum_row_counts(active_day_contributions(date, day_start as int, day_end as int, segments@, active@)) <= i64::MAX,
    ensures
        rows_view(r@) == rollup_of(active_day_contributions(date, day_start as int, day_end as int, segments@, active@)),
{
    let ghost all = active_day_contributions(date, day_start as int, day_end as int, segments@, active@);
    let mut rows: Vec<RollupRow> = Vec::new();
    let mut i: usize = 0;
    proof {
        assert(rows_view(rows@) =~= Seq::<RowView>::empty());
        assert(segments@.subrange(0, 0) =~= Seq::<SegmentRow>::empty());
    }
    while i < segments.len()
        invariant
            i <= segments@.len(),
            all == active_day_contributions(date, day_start as int, day_end as int, segments@, active@),
            sum_row_seconds(all) <= i64::MAX,
            sum_row_counts(all) <= i64::MAX,
            rows_ok(rows_view(rows@)),
            rows_view(rows@) == rollup_of(
                active_day_contributions(date, day_start as int, day_end as int, segments@.subrange(0, i as int), active@),
            ),
            sum_row_seconds(rows_view(rows@)) == sum_row_seconds(
                active_day_contributions(date, day_start as int, day_end as int, segments@.subrange(0, i as int), active@),
            ),
            sum_row_counts(rows_view(rows@)) == sum_row_counts(
                active_day_contributions(date, day_start as int, day_end as int, segments@.subrange(0, i as int), active@),
            ),
        decreases segments@.len() - i,
    {
        let seg = &segments[i];
        let ghost prev = active_day_contributions(date, day_start as int, day_end as int, segments@.subrange(0, i as int), active@);
        let ghost here = active_contribution(date, day_start as int, day_end as int, *seg, active@);
        proof {
            let p = segments@.subrange(0, i + 1);
            assert(p.drop_last() =~= segments@.subrange(0, i as int));
            assert(p.last() == *seg);
            lemma_contributions_prefix_sum(date, day_start as int, day_end as int, segments@, active@, i + 1);
            lemma_sum_concat(prev, here);
            lemma_active_contributions_nonneg(date, day_start as int, day_end as int, segments@.subrange(0, i as int), active@);
            lemma_sums_nonneg(prev);
        }
        let lo = if day_start >= seg.started_at {
            day_start
        } else {
            seg.started_at
        };
        let hi = if day_end <= seg.effective_end {
            day_end
        } else {
            seg.effective_end
        };
        let ov = intersect_active_intervals(lo, hi, active);
        if ov.len() > 0 {
            proof {
                lemma_clip_positive(take_started(skip_ended(active@, lo as int), hi as int), lo as int, hi as int);
                lemma_total_length_nonneg(ov@);
                assert(here.len() == 1);
                assert(here[0].seconds == total_length(ov@));
                lemma_row_le_sum(here, 0);
            }
            let seconds = overlap_seconds(&ov);
            let contribution = RollupRow {
                date,
                key: seg.key.clone(),
                label: seg.label.clone(),
                seconds,
                segment_count: 1,
            };
            rollup_add_within(&mut rows, contribution);
            proof {
                assert(here =~= seq![contribution@]);
                lemma_fold_append(Seq::empty(), prev, here);
                assert(seq![contribution@].drop_last() =~= Seq::<RowView>::empty());
                assert(rollup_fold(rollup_of(prev), Seq::<RowView>::empty()) == rollup_of(prev));
                assert(rollup_fold(rollup_of(prev), seq![contribution@]) == rollup_apply(rollup_of(prev), contribution@));
                assert(seq![contribution@] =~= Seq::<RowView>::empty().push(contribution@));
                lemma_sum_push_rows(Seq::<RowView>::empty(), contribution@);
            }
        } else {
            proof {
                assert(prev + here =~= prev);
            }
        }
        i += 1;
    }
    proof {
        assert(segments@.subrange(0, segments@.len() as int) =~= segments@);
    }
    rows
}

// ---------------------------------------------------------------------------
// Job decisions
// ---------------------------------------------------------------------------

/// Whether the stored daily rollups are current: same algorithm version and the
/// same time zone as now.
pub fn daily_rollups_current(
    stored_version: &Option<String>,
    stored_timezone: &Option<String>,
    version: &String,
    timezone: &String,
) -> (r: bool)
    ensures
        r == (match (stored_version, stored_timezone) {
            (Some(v), Some(t)) => v@ == version@ && t@ == timezone@,
            _ => false,
        }),
{
    match (stored_version, stored_timezone) {
        (Some(v), Some(t)) => *v == *version && *t == *timezone,
        _ => false,
    }
}

/// Status of the active-rollup rebuild job.
#[derive(Clone, Copy, Debug, PartialEq, Eq, Structural)]
pub enum JobStatus {
    Pending,
    Running,
    Failed,
    Ready,
}

/// The stored state of the active-rollup rebuild job.
#[derive(Clone, Copy, Debug, PartialEq, Eq, Structural)]
pub struct RebuildJob {
    pub status: JobStatus,
    pub completed_days: i64,
    pub total_days: i64,
    pub next_date: Option<i64>,
}

/// What a rebuild starts with.
#[derive(Clone, Copy, Debug, PartialEq, Eq, Structural)]
pub enum RebuildStart {
    /// Continue an interrupted job from its next date.
    Resume { next_date: i64, completed_days: i64, total_days: i64 },
    /// Clear the active tables and recompute all dates.
    Fresh,
}

/// An interrupted rebuild of the same algorithm version and time zone resumes from
/// the date it stopped at; anything else starts over.
pub fn plan_active_rebuild(
    rebuild_version_matches: bool,
    rebuild_timezone_matches: bool,
    job: RebuildJob,
) -> (r: RebuildStart)
    ensures
        (rebuild_version_matches && rebuild_timezone_matches && job.status != JobStatus::Ready
            && job.completed_days < job.total_days && job.next_date is Some) ==> r == (RebuildStart::Resume {
            next_date: job.next_date->0,
            completed_days: job.completed_days,
            total_days: job.total_days,
        }),
        !(rebuild_version_matches && rebuild_timezone_matches && job.status != JobStatus::Ready
            && job.completed_days < job.total_days && job.next_date is Some) ==> r == RebuildStart::Fresh,
{
    if rebuild_version_matches && rebuild_timezone_matches && job.status != JobStatus::Ready
        && job.completed_days < job.total_days {
        if let Some(next_date) = job.next_date {
            return RebuildStart::Resume {
                next_date,
                completed_days: job.completed_days,
                total_days: job.total_days,
            };
        }
    }
    RebuildStart::Fresh
}

/// Local dates a fresh rebuild covers: from the date of the earliest segment start
/// to the date of the last second before the latest segment end.
pub fn rebuild_date_range(earliest: i64, latest: i64, zone: &TimeZoneContext) -> (r: Result<
    (i64, i64),
    ZoneError,
>)
    requires
        zone.wf(),
    ensures
        ({
            let last = if latest > earliest {
                latest - 1
            } else {
                latest as int
            };
            &&& r matches Ok((a, b)) ==> a == zone.local_day(earliest as int) && b == zone.local_day(last)
            &&& r is Ok <==> (zone.covers(earliest as int) && zone.covers(last))
        }),
{
    let start_date = zone.local_date(earliest)?;
    let end_instant = if latest > earliest {
        latest - 1
    } else {
        latest
    };
    let end_date = zone.local_date(end_instant)?;
    Ok((start_date, end_date))
}

/// The job state stored after rebuilding date `date` as the `completed_days`-th of
/// `total_days`: ready once every date is done, otherwise running with the next date.
pub fn job_after_date(date: i64, completed_days: i64, total_days: i64) -> (r: RebuildJob)
    requires
        date < i64::MAX,
    ensures
        completed_days >= total_days ==> r == (RebuildJob {
            status: JobStatus::Ready,
            completed_days,
            total_days,
            next_date: None,
        }),
        completed_days < total_days ==> r == (RebuildJob {
            status: JobStatus::Running,
            completed_days,
            total_days,
            next_date: Some((date + 1) as i64),
        }),
{
    if completed_days >= total_days {
        RebuildJob { status: JobStatus::Ready, completed_days, total_days, next_date: None }
    } else {
        RebuildJob { status: JobStatus::Running, completed_days, total_days, next_date: Some(date + 1) }
    }
}

/// Whether the active rollups are current: same algorithm version, same time zone
/// and a finished job.
pub fn active_rollups_current(version_matches: bool, timezone_matches: bool, status: JobStatus) -> (r: bool)
    ensures
        r == (version_matches && timezone_matches && status == JobStatus::Ready),
{
    version_matches && timezone_matches && status == JobStatus::Ready
}

/// The dates a retention policy removes: with `retention_days` kept (today counts
/// as the first), everything from the oldest recorded date up to the day before
/// the first kept date.
pub fn retention_delete_range(today: i64, retention_days: u32, oldest: i64) -> (r: Option<(i64, i64)>)
    requires
        -10_000_000 <= today <= 10_000_000,
    ensures
        ({
            let keep_from = today - (if retention_days >= 1 { retention_days - 1 } else { 0 });
            &&& oldest < keep_from ==> r == Some((oldest, (keep_from - 1) as i64))
            &&& oldest >= keep_from ==> r is None
        }),
{
    let keep_back: i64 = if retention_days >= 1 {
        retention_days as i64 - 1
    } else {
        0
    };
    let keep_from = today - keep_back;
    if oldest < keep_from {
        Some((oldest, keep_from - 1))
    } else {
        None
    }
}

/// Why a range delete was refused.
#[derive(Clone, Copy, Debug, PartialEq, Eq, Structural)]
pub enum DeleteRangeError {
    /// `to` comes before `from`.
    Reversed,
    /// A bound lies outside what the time zone covers.
    OutOfRange,
}

/// The instants a range delete covers: from the local start of `from` to the local
/// end of `to`. Refused when `to` comes before `from`.
pub fn delete_range_bounds(from: i64, to: i64, zone: &TimeZoneContext) -> (r: Result<(i64, i64), DeleteRangeError>)
    requires
        zone.wf(),
    ensures
        to < from ==> r == Err::<(i64, i64), DeleteRangeError>(DeleteRangeError::Reversed),
        from <= to ==> match r {
            Ok((start, end)) => zone.knows_day(from as int) && zone.knows_day(to as int)
                && start == zone.day_start(from as int) && end == zone.day_end(to as int),
            Err(e) => e == DeleteRangeError::OutOfRange && !(zone.knows_day(from as int) && zone.knows_day(to as int)),
        },
{
    if to < from {
        return Err(DeleteRangeError::Reversed);
    }
    let start = match zone.day_bounds(from) {
        Ok((s, _)) => s,
        Err(_) => return Err(DeleteRangeError::OutOfRange),
    };
    let end = match zone.day_bounds(to) {
        Ok((_, e)) => e,
        Err(_) => return Err(DeleteRangeError::OutOfRange),
    };
    Ok((start, end))
}

} // verus!
