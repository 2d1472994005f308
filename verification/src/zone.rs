//! Local-day arithmetic. Instants are UTC seconds since the Unix epoch; local
//! dates are Julian day numbers. A time-zone context is either a
//! fixed UTC offset or a table of consecutive local midnights (as the Windows
//! dynamic time-zone database reports them, including 23- and 25-hour days).

use vstd::prelude::*;
use crate::text::zero_padded;

verus! {

pub const SECONDS_PER_DAY: i64 = 86400;

/// Julian day number of 1970-01-01; local dates are Julian day numbers.
pub const EPOCH_JULIAN_DAY: i64 = 2440588;

/// -9999-01-01T00:00:00Z, the earliest instant the calendar supports.
pub const MIN_INSTANT: i64 = -377705116800;

/// 9999-12-31T23:59:59Z, the latest instant the calendar supports.
pub const MAX_INSTANT: i64 = 253402300799;

/// Largest offset magnitude a UTC offset may have (±25:59:59).
pub const MAX_OFFSET_SECONDS: i32 = 93599;

pub open spec fn valid_instant(t: int) -> bool {
    MIN_INSTANT <= t <= MAX_INSTANT
}

/// Local midnights of consecutive local dates: `boundaries[k]` is the UTC instant at
/// which local date `first_day + k` begins.
#[derive(Clone, Debug)]
pub struct DayTable {
    pub first_day: i64,
    pub boundaries: Vec<i64>,
}

/// A Windows dynamic time zone: its registry key name and the local midnights
/// it produced for the covered dates.
#[derive(Clone, Debug)]
pub struct WindowsTimeZone {
    pub id: String,
    pub days: DayTable,
}

/// How local dates are derived from instants.
#[derive(Clone, Debug)]
pub enum TimeZoneContext {
    /// A fixed offset east of UTC, in seconds.
    Fixed(i32),
    Windows(WindowsTimeZone),
}

/// Reasons a local-day computation fails.
#[derive(Clone, Copy, Debug, PartialEq, Eq, Structural)]
pub enum ZoneError {
    /// The instant or date lies outside what the time-zone context covers.
    OutOfRange,
    /// A local day did not end after the instant inside it.
    NoAdvance,
}

pub open spec fn table_wf(t: DayTable) -> bool {
    &&& t.boundaries@.len() >= 2
    &&& t.boundaries@.len() <= 1_000_000
    &&& -4_000_000_000 <= t.first_day <= 4_000_000_000
    &&& forall|k: int| 0 <= k < t.boundaries@.len() ==> valid_instant(#[trigger] t.boundaries@[k] as int)
    &&& forall|i: int, j: int|
        0 <= i < j < t.boundaries@.len() ==> t.boundaries@[i] < t.boundaries@[j]
}

impl TimeZoneContext {
    pub open spec fn wf(self) -> bool {
        match self {
            TimeZoneContext::Fixed(off) => -MAX_OFFSET_SECONDS <= off <= MAX_OFFSET_SECONDS,
            TimeZoneContext::Windows(w) => table_wf(w.days),
        }
    }

    /// Whether the context can place instant `t` on a local date.
    pub open spec fn covers(self, t: int) -> bool {
        match self {
            TimeZoneContext::Fixed(off) => valid_instant(t) && self.knows_day(
                (t + off) / (SECONDS_PER_DAY as int) + EPOCH_JULIAN_DAY,
            ),
            TimeZoneContext::Windows(w) => w.days.boundaries@[0] <= t
                < w.days.boundaries@.last(),
        }
    }

    /// Whether the context knows where local date `d` begins and ends.
    pub open spec fn knows_day(self, d: int) -> bool {
        match self {
            TimeZoneContext::Fixed(off) => MIN_INSTANT <= (d - EPOCH_JULIAN_DAY) * SECONDS_PER_DAY
                - off && (d - EPOCH_JULIAN_DAY + 1) * SECONDS_PER_DAY - off <= MAX_INSTANT + 1,
            TimeZoneContext::Windows(w) => w.days.first_day <= d < w.days.first_day
                + w.days.boundaries@.len() - 1,
        }
    }

    /// UTC instant at which local date `d` begins.
    pub open spec fn day_start(self, d: int) -> int {
        match self {
            TimeZoneContext::Fixed(off) => (d - EPOCH_JULIAN_DAY) * SECONDS_PER_DAY - off,
            TimeZoneContext::Windows(w) => w.days.boundaries@[d - w.days.first_day] as int,
        }
    }

    /// UTC instant at which local date `d` ends (the next local midnight).
    pub open spec fn day_end(self, d: int) -> int {
        self.day_start(d + 1)
    }

    /// The local date containing instant `t`.
    pub open spec fn local_day(self, t: int) -> int {
        match self {
            TimeZoneContext::Fixed(off) => (t + off) / (SECONDS_PER_DAY as int) + EPOCH_JULIAN_DAY,
            TimeZoneContext::Windows(w) => w.days.first_day + choose|k: int|
                0 <= k < w.days.boundaries@.len() - 1 && #[trigger] w.days.boundaries@[k] <= t
                    < w.days.boundaries@[k + 1],
        }
    }

    /// Seconds that the interval `[start, end)` spends inside local date `d`.
    pub open spec fn overlap_on_day(self, start: int, end: int, d: int) -> int {
        min_int(end, self.day_end(d)) - max_int(start, self.day_start(d))
    }
}

pub open spec fn min_int(a: int, b: int) -> int {
    if a <= b {
        a
    } else {
        b
    }
}

pub open spec fn max_int(a: int, b: int) -> int {
    if a >= b {
        a
    } else {
        b
    }
}

/// The table index whose day holds `t`.
proof fn lemma_table_index(t: DayTable, x: int) -> (k: int)
    requires
        table_wf(t),
        t.boundaries@[0] <= x < t.boundaries@.last(),
    ensures
        0 <= k < t.boundaries@.len() - 1,
        t.boundaries@[k] <= x < t.boundaries@[k + 1],
    decreases t.boundaries@.len(),
{
    let n = t.boundaries@.len();
    if n == 2 {
        0
    } else if x < t.boundaries@[n - 2] {
        lemma_prefix_index(t.boundaries@, x, n - 2)
    } else {
        n - 2
    }
}

proof fn lemma_prefix_index(b: Seq<i64>, x: int, m: int) -> (k: int)
    requires
        1 <= m < b.len(),
        b[0] <= x < b[m],
        forall|i: int, j: int| 0 <= i < j < b.len() ==> b[i] < b[j],
    ensures
        0 <= k < m,
        b[k] <= x < b[k + 1],
    decreases m,
{
    if m == 1 {
        0
    } else if x < b[m - 1] {
        lemma_prefix_index(b, x, m - 1)
    } else {
        m - 1
    }
}

/// The covered instants form an interval.
pub proof fn lemma_covers_convex(z: TimeZoneContext, a: int, b: int, x: int)
    requires
        z.wf(),
        z.covers(a),
        z.covers(b),
        a <= x <= b,
    ensures
        z.covers(x),
{
    match z {
        TimeZoneContext::Fixed(off) => {
            let da = (a + off) / (SECONDS_PER_DAY as int);
            let db = (b + off) / (SECONDS_PER_DAY as int);
            let dx = (x + off) / (SECONDS_PER_DAY as int);
            assert(da * SECONDS_PER_DAY <= a + off < da * SECONDS_PER_DAY + SECONDS_PER_DAY);
            assert(db * SECONDS_PER_DAY <= b + off < db * SECONDS_PER_DAY + SECONDS_PER_DAY);
            assert(dx * SECONDS_PER_DAY <= x + off < dx * SECONDS_PER_DAY + SECONDS_PER_DAY);
            assert(da <= dx <= db);
        },
        TimeZoneContext::Windows(w) => {},
    }
}

/// Facts about the day containing an instant.
pub proof fn lemma_local_day(z: TimeZoneContext, x: int)
    requires
        z.wf(),
        z.covers(x),
    ensures
        z.knows_day(z.local_day(x)),
        z.day_start(z.local_day(x)) <= x < z.day_end(z.local_day(x)),
{
    match z {
        TimeZoneContext::Fixed(off) => {
            let d = (x + off) / (SECONDS_PER_DAY as int);
            assert(d * SECONDS_PER_DAY <= x + off < d * SECONDS_PER_DAY + SECONDS_PER_DAY);
        },
        TimeZoneContext::Windows(w) => {
            let b = w.days.boundaries@;
            let k = lemma_table_index(w.days, x);
            assert(b[k] <= x < b[k + 1]);
        },
    }
}

/// An instant inside a known local day belongs to that day.
pub proof fn lemma_local_day_of_member(z: TimeZoneContext, d: int, x: int)
    requires
        z.wf(),
        z.knows_day(d),
        z.day_start(d) <= x < z.day_end(d),
    ensures
        z.covers(x),
        z.local_day(x) == d,
{
    match z {
        TimeZoneContext::Fixed(off) => {
            let e = d - EPOCH_JULIAN_DAY;
            assert(e * SECONDS_PER_DAY <= x + off < e * SECONDS_PER_DAY + SECONDS_PER_DAY);
            assert((x + off) / (SECONDS_PER_DAY as int) == e);
            assert(valid_instant(x));
        },
        TimeZoneContext::Windows(w) => {
            let b = w.days.boundaries@;
            let k = d - w.days.first_day;
            assert(b[0] <= b[k]);
            assert(b[k + 1] <= b.last());
            lemma_local_day(z, x);
            let c = z.local_day(x) - w.days.first_day;
            assert(c == k) by {
                if c < k {
                    assert(b[c + 1] <= b[k]);
                } else if c > k {
                    assert(b[k + 1] <= b[c]);
                }
            }
        },
    }
}

/// Local days are ordered like the instants they contain.
pub proof fn lemma_local_day_monotone(z: TimeZoneContext, x: int, y: int)
    requires
        z.wf(),
        z.covers(x),
        z.covers(y),
        x <= y,
    ensures
        z.local_day(x) <= z.local_day(y),
{
    lemma_local_day(z, x);
    lemma_local_day(z, y);
    let dx = z.local_day(x);
    let dy = z.local_day(y);
    if dy < dx {
        lemma_day_start_monotone(z, dy + 1, dx);
    }
}

/// Day starts increase with the date.
pub proof fn lemma_day_start_monotone(z: TimeZoneContext, a: int, b: int)
    requires
        z.wf(),
        z.knows_day(a) || a == b,
        z.knows_day(b - 1) || a == b,
        a <= b,
    ensures
        z.day_start(a) <= z.day_start(b),
{
    match z {
        TimeZoneContext::Fixed(off) => {
            assert((a - EPOCH_JULIAN_DAY) * SECONDS_PER_DAY <= (b - EPOCH_JULIAN_DAY) * SECONDS_PER_DAY);
        },
        TimeZoneContext::Windows(w) => {
            if a < b {
                let bs = w.days.boundaries@;
                assert(bs[a - w.days.first_day] < bs[b - w.days.first_day]);
            }
        },
    }
}

/// Every day a wf context knows has positive length.
pub proof fn lemma_day_positive(z: TimeZoneContext, d: int)
    requires
        z.wf(),
        z.knows_day(d),
    ensures
        z.day_start(d) < z.day_end(d),
{
    match z {
        TimeZoneContext::Fixed(off) => {},
        TimeZoneContext::Windows(w) => {
            let bs = w.days.boundaries@;
            assert(bs[d - w.days.first_day] < bs[d + 1 - w.days.first_day]);
        },
    }
}

impl TimeZoneContext {
    /// The local date containing `t`.
    pub fn local_date(&self, t: i64) -> (r: Result<i64, ZoneError>)
        requires
            self.wf(),
        ensures
            match r {
                Ok(d) => self.covers(t as int) && d == self.local_day(t as int),
                Err(e) => !self.covers(t as int) && e == ZoneError::OutOfRange,
            },
    {
        match self {
            TimeZoneContext::Fixed(off) => {
                if t < MIN_INSTANT || t > MAX_INSTANT {
                    return Err(ZoneError::OutOfRange);
                }
                let x: i64 = t + *off as i64;
                let d: i64 = if x >= 0 {
                    x / SECONDS_PER_DAY
                } else {
                    0 - ((0 - x - 1) / SECONDS_PER_DAY) - 1
                };
                if d * SECONDS_PER_DAY - (*off as i64) < MIN_INSTANT || (d + 1) * SECONDS_PER_DAY
                    - (*off as i64) > MAX_INSTANT + 1 {
                    proof {
                        if x < 0 {
                            let q = (0 - x - 1) / (SECONDS_PER_DAY as int);
                            assert(q * SECONDS_PER_DAY <= 0 - x - 1 < q * SECONDS_PER_DAY + SECONDS_PER_DAY);
                            assert((x as int) / (SECONDS_PER_DAY as int) == -q - 1);
                        }
                    }
                    return Err(ZoneError::OutOfRange);
                }
                proof {
                    if x < 0 {
                        let q = (0 - x - 1) / (SECONDS_PER_DAY as int);
                        assert(q * SECONDS_PER_DAY <= 0 - x - 1 < q * SECONDS_PER_DAY + SECONDS_PER_DAY);
                        assert((-q - 1) * SECONDS_PER_DAY <= x < (-q - 1) * SECONDS_PER_DAY + SECONDS_PER_DAY);
                        assert((x as int) / (SECONDS_PER_DAY as int) == -q - 1);
                    }
                }
                Ok(d + EPOCH_JULIAN_DAY)
            },
            TimeZoneContext::Windows(w) => {
                let b = &w.days.boundaries;
                let n = b.len();
                if t < b[0] || t >= b[n - 1] {
                    return Err(ZoneError::OutOfRange);
                }
                let mut k: usize = 0;
                while k + 2 < n && b[k + 1] <= t
                    invariant
                        n == b@.len(),
                        n >= 2,
                        k + 1 < n,
                        b@[k as int] <= t,
                        t < b@[n - 1],
                        table_wf(w.days),
                        b == &w.days.boundaries,
                    decreases n - k,
                {
                    k += 1;
                }
                proof {
                    if k + 2 >= n {
                        assert(k + 1 == n - 1);
                    }
                    assert(t < b@[k + 1]);
                    lemma_local_day_of_member(*self, w.days.first_day + k, t as int);
                }
                Ok(w.days.first_day + k as i64)
            },
        }
    }

    /// UTC bounds `[start, end)` of local date `d`.
    pub fn day_bounds(&self, d: i64) -> (r: Result<(i64, i64), ZoneError>)
        requires
            self.wf(),
        ensures
            match r {
                Ok((s, e)) => self.knows_day(d as int) && s == self.day_start(d as int) && e
                    == self.day_end(d as int),
                Err(e) => !self.knows_day(d as int) && e == ZoneError::OutOfRange,
            },
    {
        match self {
            TimeZoneContext::Fixed(off) => {
                if d < -5_000_000 || d > 10_000_000 {
                    return Err(ZoneError::OutOfRange);
                }
                let e = d - EPOCH_JULIAN_DAY;
                let start = e * SECONDS_PER_DAY - *off as i64;
                if start < MIN_INSTANT || start + SECONDS_PER_DAY > MAX_INSTANT + 1 {
                    return Err(ZoneError::OutOfRange);
                }
                let end = (e + 1) * SECONDS_PER_DAY - *off as i64;
                Ok((start, end))
            },
            TimeZoneContext::Windows(w) => {
                let n = w.days.boundaries.len();
                if d < w.days.first_day || d >= w.days.first_day + (n - 1) as i64 {
                    return Err(ZoneError::OutOfRange);
                }
                let k = (d - w.days.first_day) as usize;
                Ok((w.days.boundaries[k], w.days.boundaries[k + 1]))
            },
        }
    }

    /// The next local midnight after `t`: the start of the following local date.
    pub fn next_local_midnight(&self, t: i64) -> (r: Result<i64, ZoneError>)
        requires
            self.wf(),
        ensures
            match r {
                Ok(m) => self.covers(t as int) && self.knows_day(self.local_day(t as int) + 1) && m
                    == self.day_start(self.local_day(t as int) + 1),
                Err(_) => !self.covers(t as int) || !self.knows_day(self.local_day(t as int) + 1),
            },
    {
        let today = self.local_date(t)?;
        proof {
            lemma_local_day(*self, t as int);
        }
        if today >= i64::MAX - 1 {
            return Err(ZoneError::OutOfRange);
        }
        let (start, _) = self.day_bounds(today + 1)?;
        Ok(start)
    }

    /// The time-zone identifier: `fixed:<offset>` or the Windows key name.
    pub fn id(&self) -> (r: String)
        ensures
            match self {
                TimeZoneContext::Fixed(off) => r@ == crate::zone::fixed_zone_id(*off as int),
                TimeZoneContext::Windows(w) => r@ == w.id@,
            },
    {
        match self {
            TimeZoneContext::Fixed(off) => fixed_zone_text(*off),
            TimeZoneContext::Windows(w) => w.id.clone(),
        }
    }
}

impl WindowsTimeZone {
    /// A zone from its key name and the UTC instants of the local midnights of
    /// consecutive local dates, the first of them `first_day`; refused unless
    /// there are at least two, every one is a valid instant and they increase.
    pub fn from_midnights(id: String, first_day: i64, boundaries: Vec<i64>) -> (r: Option<WindowsTimeZone>)
        ensures
            r is Some <==> table_wf(DayTable { first_day, boundaries }),
            r matches Some(z) ==> z.id@ == id@ && z.days.first_day == first_day && z.days.boundaries@
                == boundaries@,
    {
        let n = boundaries.len();
        if n < 2 || n > 1_000_000 || first_day < -4_000_000_000 || first_day > 4_000_000_000 {
            return None;
        }
        let mut k: usize = 0;
        while k < n
            invariant
                n == boundaries@.len(),
                k <= n,
                forall|i: int| 0 <= i < k ==> valid_instant(#[trigger] boundaries@[i] as int),
                forall|i: int, j: int| 0 <= i < j < k ==> boundaries@[i] < boundaries@[j],
            decreases n - k,
        {
            let b = boundaries[k];
            if b < MIN_INSTANT || b > MAX_INSTANT {
                return None;
            }
            if k > 0 && boundaries[k - 1] >= b {
                return None;
            }
            proof {
                assert forall|i: int, j: int| 0 <= i < j < k + 1 implies boundaries@[i] < boundaries@[j] by {
                    if j == k && i < k - 1 {
                        assert(boundaries@[i] < boundaries@[k - 1]);
                    }
                }
            }
            k += 1;
        }
        Some(WindowsTimeZone { id, days: DayTable { first_day, boundaries } })
    }

    /// The Windows time-zone key name.
    pub fn id(&self) -> (r: &str)
        ensures
            r@ == self.id@,
    {
        self.id.as_str()
    }
}

/// The local date (a Julian day number) and the seconds after local midnight of
/// instant `t` at a UTC offset of `offset_seconds`.
pub fn local_date_and_time(t: i64, offset_seconds: i32) -> (r: (i64, u32))
    requires
        valid_instant(t as int),
        -MAX_OFFSET_SECONDS <= offset_seconds <= MAX_OFFSET_SECONDS,
    ensures
        r.0 == (t + offset_seconds) / (SECONDS_PER_DAY as int) + EPOCH_JULIAN_DAY,
        r.1 == (t + offset_seconds) % (SECONDS_PER_DAY as int),
{
    let x: i64 = t + offset_seconds as i64;
    let day: i64;
    let rem: i64;
    if x >= 0 {
        day = x / SECONDS_PER_DAY;
        rem = x % SECONDS_PER_DAY;
    } else {
        let y: i64 = 0 - x - 1;
        day = 0 - y / SECONDS_PER_DAY - 1;
        rem = SECONDS_PER_DAY - 1 - y % SECONDS_PER_DAY;
        proof {
            let q = y / SECONDS_PER_DAY;
            let m = y % SECONDS_PER_DAY;
            assert(y == q * SECONDS_PER_DAY + m);
            assert(x == (-q - 1) * SECONDS_PER_DAY + (SECONDS_PER_DAY - 1 - m));
        }
    }
    proof {
        assert(x == day * SECONDS_PER_DAY + rem && 0 <= rem < SECONDS_PER_DAY);
        vstd::arithmetic::div_mod::lemma_fundamental_div_mod_converse(x as int, SECONDS_PER_DAY as int, day as int, rem as int);
    }
    (day + EPOCH_JULIAN_DAY, rem as u32)
}

/// The `Display` text of `time::UtcOffset` for an offset given in seconds:
/// `+HH:MM:SS`, or `-HH:MM:SS` west of UTC (empty when
/// `UtcOffset::from_whole_seconds` rejects the seconds).
pub open spec fn offset_display(offset_seconds: int) -> Seq<char> {
    if -MAX_OFFSET_SECONDS <= offset_seconds <= MAX_OFFSET_SECONDS {
        let a = if offset_seconds < 0 {
            -offset_seconds
        } else {
            offset_seconds
        };
        seq![
            if offset_seconds < 0 {
                '-'
            } else {
                '+'
            },
        ] + zero_padded((a / 3600) as nat, 2) + seq![':'] + zero_padded(((a % 3600) / 60) as nat, 2) + seq![':']
            + zero_padded((a % 60) as nat, 2)
    } else {
        Seq::empty()
    }
}

/// `fixed:` followed by the offset's display text.
pub open spec fn fixed_zone_id(offset_seconds: int) -> Seq<char> {
    "fixed:"@ + offset_display(offset_seconds)
}

/// Builds a `time::UtcOffset` with `from_whole_seconds` and formats it with its
/// `Display`; the text is `offset_display` of the seconds.
#[verifier::external_body]
fn offset_text(offset_seconds: i32) -> (r: String)
    ensures
        r@ == offset_display(offset_seconds as int),
{
    match time::UtcOffset::from_whole_seconds(offset_seconds) {
        Ok(offset) => offset.to_string(),
        Err(_) => String::new(),
    }
}

fn fixed_zone_text(offset_seconds: i32) -> (r: String)
    ensures
        r@ == fixed_zone_id(offset_seconds as int),
{
    let prefix = String::from_str("fixed:");
    let shown = offset_text(offset_seconds);
    prefix.concat(shown.as_str())
}

// ---------------------------------------------------------------------------
// Splitting intervals by local day
// ---------------------------------------------------------------------------

/// Seconds an interval spends on one local date.
#[derive(Clone, Copy, Debug, PartialEq, Eq, Structural)]
pub struct DailyChunk {
    pub date: i64,
    pub seconds: i64,
}

pub open spec fn sum_chunk_seconds(chunks: Seq<DailyChunk>) -> int
    decreases chunks.len(),
{
    if chunks.len() == 0 {
        0
    } else {
        sum_chunk_seconds(chunks.drop_last()) + chunks.last().seconds
    }
}

/// The chunks of `[start, end)`: one per local date from the date of `start` to the
/// date of the interval's last second, holding the seconds spent on that date.
pub open spec fn is_day_split(z: TimeZoneContext, start: int, end: int, chunks: Seq<DailyChunk>) -> bool {
    if end <= start {
        chunks.len() == 0
    } else {
        let first = z.local_day(start);
        let last = z.local_day(end - 1);
        &&& chunks.len() == last - first + 1
        &&& forall|k: int|
            0 <= k < chunks.len() ==> {
                &&& (#[trigger] chunks[k]).date == first + k
                &&& chunks[k].seconds == z.overlap_on_day(start, end, first + k)
                &&& chunks[k].seconds > 0
            }
    }
}

proof fn lemma_sum_push(chunks: Seq<DailyChunk>, c: DailyChunk)
    ensures
        sum_chunk_seconds(chunks.push(c)) == sum_chunk_seconds(chunks) + c.seconds,
{
    assert(chunks.push(c).drop_last() =~= chunks);
}

/// The context places the interval `[start, end)`: it is empty, or both its first
/// and its last second are covered.
#[verifier::opaque]
pub open spec fn interval_covered(z: TimeZoneContext, start: int, end: int) -> bool {
    end <= start || (z.covers(start) && z.covers(end - 1))
}

/// Splits `[start, end)` at local midnights, as the rollups count usage per local date.
#[verifier::rlimit(50)]
pub fn split_interval_by_local_day(start: i64, end: i64, zone: &TimeZoneContext) -> (r: Result<
    Vec<DailyChunk>,
    ZoneError,
>)
    requires
        zone.wf(),
    ensures
        match r {
            Ok(chunks) => is_day_split(*zone, start as int, end as int, chunks@)
                && sum_chunk_seconds(chunks@) == (if end > start { end - start } else { 0 })
                && (end > start ==> zone.covers(start as int) && zone.covers(end - 1)),
            Err(_) => end > start && !(zone.covers(start as int) && zone.covers(end - 1)),
        },
{
    let mut chunks: Vec<DailyChunk> = Vec::new();
    if end <= start {
        return Ok(chunks);
    }
    let ghost first_ok = zone.covers(start as int);
    let mut cursor = start;
    let ghost mut first: int = 0;
    while cursor < end
        invariant
            zone.wf(),
            start <= cursor <= end,
            start < end,
            chunks@.len() > 0 ==> zone.covers(start as int),
            cursor > start ==> zone.covers(cursor - 1),
            chunks@.len() > 0 ==> first == zone.local_day(start as int),
            chunks@.len() > 0 && cursor < end ==> cursor == zone.day_start(first + chunks@.len()),
            chunks@.len() > 0 && cursor < end ==> zone.knows_day(first + chunks@.len() - 1),
            chunks@.len() == 0 ==> cursor == start,
            cursor == end ==> chunks@.len() > 0 && zone.local_day(end - 1) == first + chunks@.len() - 1,
            forall|k: int|
                0 <= k < chunks@.len() ==> {
                    &&& (#[trigger] chunks@[k]).date == first + k
                    &&& chunks@[k].seconds == zone.overlap_on_day(start as int, end as int, first + k)
                    &&& chunks@[k].seconds > 0
                },
            sum_chunk_seconds(chunks@) == cursor - start,
        decreases end - cursor,
    {
        let date = match zone.local_date(cursor) {
            Ok(d) => d,
            Err(e) => {
                proof {
                    if zone.covers(start as int) && zone.covers(end - 1) {
                        lemma_covers_convex(*zone, start as int, end - 1, cursor as int);
                    }
                }
                return Err(e);
            },
        };
        let (_, next_midnight) = match zone.day_bounds(date) {
            Ok(b) => b,
            Err(e) => {
                proof {
                    lemma_local_day(*zone, cursor as int);
                }
                return Err(e);
            },
        };
        proof {
            lemma_local_day(*zone, cursor as int);
        }
        if next_midnight <= cursor {
            return Err(ZoneError::NoAdvance);
        }
        let chunk_end = if next_midnight < end {
            next_midnight
        } else {
            end
        };
        let seconds = chunk_end - cursor;
        proof {
            if chunks@.len() == 0 {
                first = date as int;
            }
            lemma_sum_push(chunks@, DailyChunk { date, seconds });
            if chunks@.len() > 0 {
                assert(date == first + chunks@.len()) by {
                    lemma_day_positive(*zone, first + chunks@.len());
                    lemma_local_day_of_member(*zone, first + chunks@.len(), cursor as int);
                }
            }
            assert(max_int(start as int, zone.day_start(date as int)) == cursor);
            if chunk_end == end {
                lemma_local_day_of_member(*zone, date as int, end - 1);
            }
            lemma_local_day_of_member(*zone, date as int, chunk_end - 1);
        }
        chunks.push(DailyChunk { date, seconds });
        cursor = chunk_end;
    }
    Ok(chunks)
}

} // verus!
