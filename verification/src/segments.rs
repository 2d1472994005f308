//! Segment timestamps: heartbeats, closing, restoring after a restart, clamping to
//! a queried day, and intersecting with active-presence intervals.

use vstd::prelude::*;
use crate::zone::{min_int, max_int};

verus! {

/// The stored timestamps of one focus, browser or presence segment.
#[derive(Clone, Copy, Debug, PartialEq, Eq, Structural)]
pub struct SegmentTimes {
    pub started_at: i64,
    pub last_seen_at: Option<i64>,
    pub ended_at: Option<i64>,
}

impl SegmentTimes {
    /// The last moment the segment was observed (`COALESCE(last_seen_at, started_at)`).
    pub open spec fn seen(self) -> int {
        match self.last_seen_at {
            Some(t) => t as int,
            None => self.started_at as int,
        }
    }

    /// Where the segment ends for aggregation (`COALESCE(ended_at, last_seen_at, started_at)`).
    pub open spec fn effective_end_spec(self) -> int {
        match self.ended_at {
            Some(t) => t as int,
            None => self.seen(),
        }
    }

    pub open spec fn is_open(self) -> bool {
        self.ended_at is None
    }

    pub fn last_seen(&self) -> (r: i64)
        ensures
            r == self.seen(),
    {
        match self.last_seen_at {
            Some(t) => t,
            None => self.started_at,
        }
    }

    pub fn effective_end(&self) -> (r: i64)
        ensures
            r == self.effective_end_spec(),
    {
        match self.ended_at {
            Some(t) => t,
            None => self.last_seen(),
        }
    }
}

/// What a heartbeat or a close does to a segment.
#[derive(Clone, Copy, Debug)]
pub struct SegmentUpdate {
    /// The segment's timestamps afterwards.
    pub times: SegmentTimes,
    /// The interval `[from, to)` of newly accounted usage, when the segment was open.
    pub usage: Option<(i64, i64)>,
}

/// A heartbeat: an open segment's `last_seen_at` moves to the later of its previous
/// value and `observed_at`, and the time in between is accounted as usage. A
/// closed segment is left as it is.
pub fn touch_segment(seg: SegmentTimes, observed_at: i64) -> (r: SegmentUpdate)
    ensures
        seg.is_open() ==> {
            let touched = max_int(seg.seen(), observed_at as int);
            &&& r.times == (SegmentTimes { last_seen_at: Some(touched as i64), ..seg })
            &&& r.usage == Some((seg.seen() as i64, touched as i64))
        },
        !seg.is_open() ==> (r.times == seg && (r.usage is None)),
{
    if seg.ended_at.is_some() {
        return SegmentUpdate { times: seg, usage: None };
    }
    let previous = seg.last_seen();
    let touched = if previous >= observed_at {
        previous
    } else {
        observed_at
    };
    SegmentUpdate {
        times: SegmentTimes { last_seen_at: Some(touched), ..seg },
        usage: Some((previous, touched)),
    }
}

/// Closing: an open segment ends at the later of its last observation and
/// `observed_at`; the time since the last observation is accounted as usage.
pub fn end_segment(seg: SegmentTimes, observed_at: i64) -> (r: SegmentUpdate)
    ensures
        seg.is_open() ==> {
            let ended = max_int(seg.seen(), observed_at as int);
            &&& r.times == (SegmentTimes {
                last_seen_at: Some(ended as i64),
                ended_at: Some(ended as i64),
                ..seg
            })
            &&& r.usage == Some((seg.seen() as i64, ended as i64))
        },
        !seg.is_open() ==> (r.times == seg && (r.usage is None)),
{
    if seg.ended_at.is_some() {
        return SegmentUpdate { times: seg, usage: None };
    }
    let previous = seg.last_seen();
    let ended = if previous >= observed_at {
        previous
    } else {
        observed_at
    };
    SegmentUpdate {
        times: SegmentTimes { last_seen_at: Some(ended), ended_at: Some(ended), ..seg },
        usage: Some((previous, ended)),
    }
}

/// Closing a segment left open by a previous run: it ends where it was last
/// observed, not at the restart time.
pub fn restore_unclosed(seg: SegmentTimes) -> (r: SegmentTimes)
    ensures
        seg.is_open() ==> r == (SegmentTimes { ended_at: Some(seg.seen() as i64), ..seg }),
        !seg.is_open() ==> r == seg,
{
    if seg.ended_at.is_some() {
        return seg;
    }
    SegmentTimes { ended_at: Some(seg.last_seen()), ..seg }
}

/// Total usage accounted by a run of heartbeats at the given observation times.
pub open spec fn replay_heartbeats(seg: SegmentTimes, observations: Seq<i64>) -> (SegmentTimes, int)
    decreases observations.len(),
{
    if observations.len() == 0 || !seg.is_open() {
        (seg, 0)
    } else {
        let touched = max_int(seg.seen(), observations[0] as int);
        let next = SegmentTimes { last_seen_at: Some(touched as i64), ..seg };
        let (last, total) = replay_heartbeats(next, observations.drop_first());
        (last, total + (touched - seg.seen()))
    }
}

/// Heartbeats never move `last_seen_at` backwards, and the usage they account adds
/// up to exactly the distance the observation point moved.
pub proof fn law_heartbeats_monotone_and_telescoping(seg: SegmentTimes, observations: Seq<i64>)
    requires
        seg.is_open(),
        forall|i: int| 0 <= i < observations.len() ==> #[trigger] observations[i] >= i64::MIN,
    ensures
        replay_heartbeats(seg, observations).0.seen() >= seg.seen(),
        replay_heartbeats(seg, observations).1 == replay_heartbeats(seg, observations).0.seen()
            - seg.seen(),
        replay_heartbeats(seg, observations).0.is_open(),
        replay_heartbeats(seg, observations).0.started_at == seg.started_at,
    decreases observations.len(),
{
    if observations.len() > 0 {
        let touched = max_int(seg.seen(), observations[0] as int);
        let next = SegmentTimes { last_seen_at: Some(touched as i64), ..seg };
        assert(next.seen() == touched);
        let rest = observations.drop_first();
        assert forall|i: int| 0 <= i < rest.len() implies #[trigger] rest[i] >= i64::MIN by {
            assert(rest[i] == observations[i + 1]);
        }
        law_heartbeats_monotone_and_telescoping(next, rest);
    }
}

// ---------------------------------------------------------------------------
// Clamping to a queried day
// ---------------------------------------------------------------------------

/// Moves a start that lies before the day up to the day's start.
pub fn clamp_start(value: i64, min: i64) -> (r: i64)
    ensures
        r == max_int(value as int, min as int),
{
    if value < min {
        min
    } else {
        value
    }
}

/// Clamps an end into `[min, max]`: first down to `max`, then up to `min`.
pub fn clamp_end(value: i64, max: i64, min: i64) -> (r: i64)
    ensures
        r == max_int(min_int(value as int, max as int), min as int),
{
    let upper = if value > max {
        max
    } else {
        value
    };
    if upper < min {
        min
    } else {
        upper
    }
}

/// Where the day view ends a stored segment: a closed one at its end, an open one
/// (no end recorded yet) at `now`, so that it reaches the current moment.
pub open spec fn displayed_end(seg: SegmentTimes, now: int) -> int {
    match seg.ended_at {
        Some(t) => t as int,
        None => now,
    }
}

/// Displayed bounds of a stored segment on a queried day: its start moved up to
/// the day's start, its displayed end kept within the day.
pub fn segment_bounds(seg: SegmentTimes, now: i64, day_start: i64, day_end: i64) -> (r: (i64, i64))
    ensures
        r.0 == max_int(seg.started_at as int, day_start as int),
        r.1 == max_int(min_int(displayed_end(seg, now as int), day_end as int), day_start as int),
{
    let ended_at = match seg.ended_at {
        Some(t) => t,
        None => now,
    };
    (clamp_start(seg.started_at, day_start), clamp_end(ended_at, day_end, day_start))
}

/// Whether the day view of `[day_start, day_end)` shows a segment: a closed one that
/// ends after the day starts and starts before it ends, or an open one that starts
/// before the day ends while `now` is after the day starts.
pub open spec fn shown_on_day(seg: SegmentTimes, day_start: int, day_end: int, now: int) -> bool {
    match seg.ended_at {
        Some(e) => e > day_start && seg.started_at < day_end,
        None => seg.started_at < day_end && now > day_start,
    }
}

/// The day view of stored segments: for each one, its displayed bounds on the day
/// when it is shown, else `None`.
pub fn day_timeline_bounds(segs: &Vec<SegmentTimes>, now: i64, day_start: i64, day_end: i64) -> (r: Vec<
    Option<(i64, i64)>,
>)
    ensures
        r@.len() == segs@.len(),
        forall|i: int| 0 <= i < r@.len() ==> (#[trigger] r@[i]) == if shown_on_day(segs@[i], day_start as int, day_end as int, now as int) {
            Some(
                (
                    max_int(segs@[i].started_at as int, day_start as int) as i64,
                    max_int(min_int(displayed_end(segs@[i], now as int), day_end as int), day_start as int) as i64,
                ),
            )
        } else {
            None
        },
{
    let mut out: Vec<Option<(i64, i64)>> = Vec::new();
    let mut i: usize = 0;
    while i < segs.len()
        invariant
            i <= segs@.len(),
            out@.len() == i,
            forall|k: int| 0 <= k < i ==> (#[trigger] out@[k]) == if shown_on_day(segs@[k], day_start as int, day_end as int, now as int) {
                Some(
                    (
                        max_int(segs@[k].started_at as int, day_start as int) as i64,
                        max_int(min_int(displayed_end(segs@[k], now as int), day_end as int), day_start as int) as i64,
                    ),
                )
            } else {
                None
            },
        decreases segs@.len() - i,
    {
        let seg = segs[i];
        let shown = match seg.ended_at {
            Some(e) => e > day_start && seg.started_at < day_end,
            None => seg.started_at < day_end && now > day_start,
        };
        if shown {
            out.push(Some(segment_bounds(seg, now, day_start, day_end)));
        } else {
            out.push(None);
        }
        i += 1;
    }
    out
}

/// The end the day view shows for today's still-open segment: its last in-memory
/// observation plus the grace period, capped at `now`.
pub fn live_segment_end(now: i64, last_observed_at: i64, grace: i64) -> (r: i64)
    requires
        i64::MIN <= last_observed_at + grace <= i64::MAX,
    ensures
        r == min_int(now as int, last_observed_at + grace),
{
    let limit = last_observed_at + grace;
    if now <= limit {
        now
    } else {
        limit
    }
}

// ---------------------------------------------------------------------------
// Active-presence intersections
// ---------------------------------------------------------------------------

/// Skips leading intervals that end at or before `start`.
pub open spec fn skip_ended(s: Seq<(i64, i64)>, start: int) -> Seq<(i64, i64)>
    decreases s.len(),
{
    if s.len() > 0 && s[0].1 <= start {
        skip_ended(s.drop_first(), start)
    } else {
        s
    }
}

/// Keeps leading intervals that begin before `end`.
pub open spec fn take_started(s: Seq<(i64, i64)>, end: int) -> Seq<(i64, i64)>
    decreases s.len(),
{
    if s.len() > 0 && s[0].0 < end {
        seq![s[0]] + take_started(s.drop_first(), end)
    } else {
        Seq::empty()
    }
}

/// The non-empty parts of the intervals that fall inside `[start, end)`.
pub open spec fn clip_all(s: Seq<(i64, i64)>, start: int, end: int) -> Seq<(i64, i64)>
    decreases s.len(),
{
    if s.len() == 0 {
        Seq::empty()
    } else {
        let lo = max_int(start, s[0].0 as int);
        let hi = min_int(end, s[0].1 as int);
        let rest = clip_all(s.drop_first(), start, end);
        if hi > lo {
            seq![(lo as i64, hi as i64)] + rest
        } else {
            rest
        }
    }
}

/// `[start, end)` intersected with the active intervals, scanning the intervals as
/// a start-ordered list: ones that ended before `start` are skipped, and the scan
/// stops at the first one that begins at or after `end`.
pub open spec fn intersect_spec(start: int, end: int, active: Seq<(i64, i64)>) -> Seq<(i64, i64)> {
    if end <= start {
        Seq::empty()
    } else {
        clip_all(take_started(skip_ended(active, start), end), start, end)
    }
}

proof fn lemma_skip_ended_suffix(s: Seq<(i64, i64)>, start: int, i: int)
    requires
        0 <= i <= s.len(),
        forall|k: int| 0 <= k < i ==> (#[trigger] s[k]).1 <= start,
    ensures
        skip_ended(s, start) == skip_ended(s.subrange(i, s.len() as int), start),
    decreases i,
{
    if i > 0 {
        assert(s.subrange(1, s.len() as int) =~= s.drop_first());
        let t = s.drop_first();
        assert forall|k: int| 0 <= k < i - 1 implies (#[trigger] t[k]).1 <= start by {
            assert(t[k] == s[k + 1]);
        }
        lemma_skip_ended_suffix(t, start, i - 1);
        assert(t.subrange(i - 1, t.len() as int) =~= s.subrange(i, s.len() as int));
    } else {
        assert(s.subrange(0, s.len() as int) =~= s);
    }
}

proof fn lemma_clip_take_step(s: Seq<(i64, i64)>, start: int, end: int)
    requires
        s.len() > 0,
        s[0].0 < end,
    ensures
        clip_all(take_started(s, end), start, end) == {
            let lo = max_int(start, s[0].0 as int);
            let hi = min_int(end, s[0].1 as int);
            let rest = clip_all(take_started(s.drop_first(), end), start, end);
            if hi > lo {
                seq![(lo as i64, hi as i64)] + rest
            } else {
                rest
            }
        },
{
    let t = take_started(s, end);
    assert(t =~= seq![s[0]] + take_started(s.drop_first(), end));
    assert(t[0] == s[0]);
    assert(t.drop_first() =~= take_started(s.drop_first(), end));
}

/// Intersects `[start, end)` with start-ordered active intervals.
pub fn intersect_active_intervals(start: i64, end: i64, active: &Vec<(i64, i64)>) -> (r: Vec<(i64, i64)>)
    ensures
        r@ == intersect_spec(start as int, end as int, active@),
{
    let mut out: Vec<(i64, i64)> = Vec::new();
    if end <= start {
        return out;
    }
    let n = active.len();
    let mut i: usize = 0;
    while i < n && active[i].1 <= start
        invariant
            n == active@.len(),
            i <= n,
            forall|k: int| 0 <= k < i ==> (#[trigger] active@[k]).1 <= start,
        decreases n - i,
    {
        i += 1;
    }
    proof {
        lemma_skip_ended_suffix(active@, start as int, i as int);
        let t = active@.subrange(i as int, n as int);
        if t.len() > 0 {
            assert(t[0] == active@[i as int]);
        }
    }
    let ghost rest0 = active@.subrange(i as int, n as int);
    let ghost target = clip_all(take_started(rest0, end as int), start as int, end as int);
    while i < n && active[i].0 < end
        invariant
            n == active@.len(),
            i <= n,
            start < end,
            target == out@ + clip_all(
                take_started(active@.subrange(i as int, n as int), end as int),
                start as int,
                end as int,
            ),
        decreases n - i,
    {
        let (a_start, a_end) = active[i];
        let lo = if start >= a_start {
            start
        } else {
            a_start
        };
        let hi = if end <= a_end {
            end
        } else {
            a_end
        };
        proof {
            let s = active@.subrange(i as int, n as int);
            assert(s[0] == active@[i as int]);
            lemma_clip_take_step(s, start as int, end as int);
            assert(s.drop_first() =~= active@.subrange(i + 1, n as int));
        }
        if hi > lo {
            out.push((lo, hi));
            proof {
                assert(out@ + clip_all(
                    take_started(active@.subrange(i + 1, n as int), end as int),
                    start as int,
                    end as int,
                ) =~= (out@.drop_last()) + (seq![(lo, hi)] + clip_all(
                    take_started(active@.subrange(i + 1, n as int), end as int),
                    start as int,
                    end as int,
                )));
            }
        }
        i += 1;
    }
    proof {
        let s = active@.subrange(i as int, n as int);
        if i < n {
            assert(s[0] == active@[i as int]);
        }
        assert(take_started(s, end as int) =~= Seq::<(i64, i64)>::empty());
        assert(clip_all(Seq::<(i64, i64)>::empty(), start as int, end as int) =~= Seq::<(i64, i64)>::empty());
        assert(out@ + Seq::<(i64, i64)>::empty() =~= out@);
    }
    out
}

/// Clips start-ordered active-presence rows to `[start, end)`, keeping the non-empty
/// overlaps in order.
pub fn active_overlaps(start: i64, end: i64, rows: &Vec<(i64, i64)>) -> (r: Vec<(i64, i64)>)
    ensures
        end <= start ==> r@.len() == 0,
        end > start ==> r@ == clip_all(rows@, start as int, end as int),
{
    let mut out: Vec<(i64, i64)> = Vec::new();
    if end <= start {
        return out;
    }
    let n = rows.len();
    let mut k: usize = 0;
    assert(rows@.subrange(0, n as int) =~= rows@);
    assert(out@ + rows@ =~= rows@);
    while k < n
        invariant
            k <= n,
            n == rows@.len(),
            clip_all(rows@, start as int, end as int) == out@ + clip_all(
                rows@.subrange(k as int, n as int),
                start as int,
                end as int,
            ),
        decreases n - k,
    {
        let (a_start, a_end) = rows[k];
        let lo = if start >= a_start {
            start
        } else {
            a_start
        };
        let hi = if end <= a_end {
            end
        } else {
            a_end
        };
        proof {
            let s = rows@.subrange(k as int, n as int);
            assert(s[0] == rows@[k as int]);
            assert(s.drop_first() =~= rows@.subrange(k + 1, n as int));
        }
        if hi > lo {
            out.push((lo, hi));
            proof {
                let tail = clip_all(rows@.subrange(k + 1, n as int), start as int, end as int);
                assert(out@ + tail =~= out@.drop_last() + (seq![(lo, hi)] + tail));
            }
        }
        k += 1;
    }
    proof {
        assert(rows@.subrange(n as int, n as int) =~= Seq::<(i64, i64)>::empty());
        assert(out@ + Seq::<(i64, i64)>::empty() =~= out@);
    }
    out
}

pub open spec fn total_length(s: Seq<(i64, i64)>) -> int
    decreases s.len(),
{
    if s.len() == 0 {
        0
    } else {
        (s[0].1 - s[0].0) + total_length(s.drop_first())
    }
}

/// Start-ordered, pairwise disjoint intervals.
pub open spec fn sorted_disjoint(s: Seq<(i64, i64)>) -> bool {
    &&& forall|i: int| 0 <= i < s.len() ==> (#[trigger] s[i]).0 <= s[i].1
    &&& forall|i: int, j: int| 0 <= i < j < s.len() ==> (#[trigger] s[i]).1 <= (#[trigger] s[j]).0
}

proof fn lemma_clip_within(s: Seq<(i64, i64)>, start: int, end: int, lo_bound: int)
    requires
        sorted_disjoint(s),
        start < end,
        forall|i: int| 0 <= i < s.len() ==> (#[trigger] s[i]).0 >= lo_bound,
    ensures
        total_length(clip_all(s, start, end)) <= end - max_int(start, lo_bound) || clip_all(s, start, end).len() == 0,
        total_length(clip_all(s, start, end)) >= 0,
        forall|i: int|
            0 <= i < clip_all(s, start, end).len() ==> (#[trigger] clip_all(s, start, end)[i]).0 >= max_int(start, lo_bound),
    decreases s.len(),
{
    if s.len() > 0 {
        let lo = max_int(start, s[0].0 as int);
        let hi = min_int(end, s[0].1 as int);
        let t = s.drop_first();
        assert forall|i: int, j: int| 0 <= i < j < t.len() implies (#[trigger] t[i]).1 <= (#[trigger] t[j]).0 by {
            assert(t[i] == s[i + 1]);
            assert(t[j] == s[j + 1]);
        }
        assert forall|i: int| 0 <= i < t.len() implies (#[trigger] t[i]).0 <= t[i].1 by {
            assert(t[i] == s[i + 1]);
        }
        assert forall|i: int| 0 <= i < t.len() implies (#[trigger] t[i]).0 >= s[0].1 by {
            assert(t[i] == s[i + 1]);
            assert(s[0].1 <= s[i + 1].0);
        }
        lemma_clip_within(t, start, end, s[0].1 as int);
        let rest = clip_all(t, start, end);
        if hi > lo {
            let out = seq![(lo as i64, hi as i64)] + rest;
            assert(out.drop_first() =~= rest);
            assert(out[0] == (lo as i64, hi as i64));
            assert forall|i: int| 0 <= i < out.len() implies (#[trigger] out[i]).0 >= max_int(start, lo_bound) by {
                if i > 0 {
                    assert(out[i] == rest[i - 1]);
                }
            }
        }
    }
}

/// On start-ordered, pairwise disjoint active intervals, the active time found
/// inside `[start, end)` never exceeds the interval's length.
pub proof fn law_active_overlap_bounded(start: int, end: int, active: Seq<(i64, i64)>)
    requires
        sorted_disjoint(active),
    ensures
        0 <= total_length(clip_all(active, start, end)),
        total_length(clip_all(active, start, end)) <= if end > start { end - start } else { 0 },
{
    if end > start {
        let lo_bound = if active.len() > 0 { active[0].0 as int } else { start };
        assert forall|i: int| 0 <= i < active.len() implies (#[trigger] active[i]).0 >= lo_bound by {
            if i > 0 {
                assert(active[0].1 <= active[i].0);
            }
        }
        lemma_clip_within(active, start, end, lo_bound);
    } else {
        lemma_clip_empty(active, start, end);
    }
}

proof fn lemma_clip_empty(s: Seq<(i64, i64)>, start: int, end: int)
    requires
        end <= start,
    ensures
        clip_all(s, start, end) == Seq::<(i64, i64)>::empty(),
    decreases s.len(),
{
    if s.len() > 0 {
        lemma_clip_empty(s.drop_first(), start, end);
    }
}

} // verus!
