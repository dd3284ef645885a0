//! Batches of skipped message ids per source, kept as runs of consecutive ids and
//! reported in one line each when a batch grows large or goes quiet.
use crate::signature::{decimal, push_decimal};
use crate::table::StrMap;
use crate::timing::elapsed;
use crate::utf16::{str_chars, string_from_chars};
use vstd::prelude::*;

verus! {

/// Skipped ids of one source: runs `(first, last)`, how many ids were recorded (a
/// repeated id counts again), and when the batch last changed.
pub struct SkipLogBatch {
    ranges: Vec<(i64, i64)>,
    count: usize,
    last_update_ms: u64,
}

/// A batch as a mathematical value.
pub struct BatchSpec {
    pub ranges: Seq<(i64, i64)>,
    pub count: nat,
    pub last_update_ms: u64,
}

impl View for SkipLogBatch {
    type V = BatchSpec;

    closed spec fn view(&self) -> BatchSpec {
        BatchSpec { ranges: self.ranges@, count: self.count as nat, last_update_ms: self.last_update_ms }
    }
}

/// An empty batch as of `now`.
pub open spec fn empty_batch(now: u64) -> BatchSpec {
    BatchSpec { ranges: Seq::empty(), count: 0, last_update_ms: now }
}

/// The batch after recording `id` at `now`: an id inside the last run or right after it
/// joins that run; any other id starts a run of its own.
pub open spec fn batch_pushed(b: BatchSpec, id: i64, now: u64) -> BatchSpec {
    let n = b.ranges.len();
    if n > 0 && b.ranges[n - 1].0 <= id <= b.ranges[n - 1].1 {
        BatchSpec { ranges: b.ranges, count: b.count + 1, last_update_ms: now }
    } else if n > 0 && id == b.ranges[n - 1].1 + 1 {
        BatchSpec {
            ranges: b.ranges.update(n - 1, (b.ranges[n - 1].0, id)),
            count: b.count + 1,
            last_update_ms: now,
        }
    } else {
        BatchSpec { ranges: b.ranges.push((id, id)), count: b.count + 1, last_update_ms: now }
    }
}

/// One run as text: `a` alone, or `a-b`.
pub open spec fn range_text(r: (i64, i64)) -> Seq<char> {
    if r.0 == r.1 {
        decimal(r.0 as int)
    } else {
        decimal(r.0 as int) + seq!['-'] + decimal(r.1 as int)
    }
}

/// The runs as text, joined by commas.
pub open spec fn ranges_text(rs: Seq<(i64, i64)>) -> Seq<char>
    decreases rs.len(),
{
    if rs.len() == 0 {
        Seq::empty()
    } else if rs.len() == 1 {
        range_text(rs[0])
    } else {
        ranges_text(rs.drop_last()) + seq![','] + range_text(rs.last())
    }
}

impl SkipLogBatch {
    /// An empty batch as of `now_ms`.
    pub fn new(now_ms: u64) -> (r: Self)
        ensures
            r@ == empty_batch(now_ms),
    {
        SkipLogBatch { ranges: Vec::new(), count: 0, last_update_ms: now_ms }
    }

    /// Empties the batch as of `now_ms`.
    pub fn clear(&mut self, now_ms: u64)
        ensures
            final(self)@ == empty_batch(now_ms),
    {
        self.ranges.clear();
        self.count = 0;
        self.last_update_ms = now_ms;
    }

    /// Records the skipped id `msg_id` at `now_ms`.
    pub fn push(&mut self, msg_id: i64, now_ms: u64)
        requires
            old(self)@.count < usize::MAX,
        ensures
            final(self)@ == batch_pushed(old(self)@, msg_id, now_ms),
    {
        let n = self.ranges.len();
        if n > 0 {
            let (start, end) = self.ranges[n - 1];
            if msg_id >= start && msg_id <= end {
                self.count = self.count + 1;
                self.last_update_ms = now_ms;
                return;
            }
            if msg_id > i64::MIN && msg_id - 1 == end {
                self.ranges.set(n - 1, (start, msg_id));
                self.count = self.count + 1;
                self.last_update_ms = now_ms;
                return;
            }
        }
        self.ranges.push((msg_id, msg_id));
        self.count = self.count + 1;
        self.last_update_ms = now_ms;
    }

    /// The runs of the batch as text, as `ranges_text` states.
    pub fn ids_text(&self) -> (r: String)
        ensures
            r@ == ranges_text(self@.ranges),
    {
        let mut out: Vec<char> = Vec::new();
        let mut i: usize = 0;
        while i < self.ranges.len()
            invariant
                i <= self.ranges@.len(),
                out@ == ranges_text(self.ranges@.take(i as int)),
            decreases self.ranges@.len() - i,
        {
            let ghost before = out@;
            if i > 0 {
                out.push(',');
            }
            let (start, end) = self.ranges[i];
            push_decimal(start, &mut out);
            if start != end {
                out.push('-');
                push_decimal(end, &mut out);
            }
            proof {
                let rs = self.ranges@.take(i as int + 1);
                assert(rs.drop_last() =~= self.ranges@.take(i as int));
                assert(rs.last() == self.ranges@[i as int]);
                if i == 0 {
                    assert(before =~= Seq::<char>::empty());
                    assert(out@ =~= range_text(self.ranges@[0]));
                } else {
                    assert(out@ =~= before + seq![','] + range_text(self.ranges@[i as int]));
                }
            }
            i = i + 1;
        }
        assert(self.ranges@.take(self.ranges@.len() as int) =~= self.ranges@);
        string_from_chars(out.as_slice())
    }
}

/// A report of one batch: its source, how many ids it recorded, and their runs.
pub struct SkipReport {
    pub source: String,
    pub count: usize,
    pub ids: String,
}

/// A report as a mathematical value.
pub struct ReportSpec {
    pub source: Seq<char>,
    pub count: nat,
    pub ids: Seq<char>,
}

/// The view of a report.
pub open spec fn report_view(r: SkipReport) -> ReportSpec {
    ReportSpec { source: r.source@, count: r.count as nat, ids: r.ids@ }
}

/// The report of `b` for `source`.
pub open spec fn report_of(source: Seq<char>, b: BatchSpec) -> ReportSpec {
    ReportSpec { source, count: b.count, ids: ranges_text(b.ranges) }
}

/// Whether a batch has ids and has not changed for longer than `max_age` at `now`.
pub open spec fn stale(b: BatchSpec, now: u64, max_age: u64) -> bool {
    b.ranges.len() > 0 && elapsed(b.last_update_ms, now) > max_age
}

/// Skipped ids per source, reported a batch at a time.
pub struct SkipLogAggregator {
    per_source: StrMap<SkipLogBatch>,
    max_ranges: usize,
    max_count: usize,
    max_age_ms: u64,
}

/// The batches of an aggregator as mathematical values.
pub open spec fn batch_views(m: Map<Seq<char>, SkipLogBatch>) -> Map<Seq<char>, BatchSpec> {
    m.map_values(|b: SkipLogBatch| b@)
}

/// Where `record` leaves the batch of its source, and the reports it makes: a stale
/// batch is reported and emptied first; after the id is added, a batch that reached
/// `max_ranges` runs or `max_count` ids is reported and emptied.
pub open spec fn record_outcome(
    old_batch: Option<BatchSpec>,
    source: Seq<char>,
    id: i64,
    now: u64,
    max_ranges: usize,
    max_count: usize,
    max_age: u64,
) -> (BatchSpec, Seq<ReportSpec>) {
    let b0 = match old_batch {
        Some(b) => b,
        None => empty_batch(now),
    };
    let first: Seq<ReportSpec> = if stale(b0, now, max_age) {
        seq![report_of(source, b0)]
    } else {
        Seq::empty()
    };
    let b1 = if stale(b0, now, max_age) {
        empty_batch(now)
    } else {
        b0
    };
    let b2 = batch_pushed(b1, id, now);
    if b2.ranges.len() >= max_ranges || b2.count >= max_count {
        (empty_batch(now), first.push(report_of(source, b2)))
    } else {
        (b2, first)
    }
}

impl SkipLogAggregator {
    /// The batches, by source.
    pub closed spec fn batches(&self) -> Map<Seq<char>, BatchSpec> {
        batch_views(self.per_source@)
    }

    /// The limits the aggregator was made with.
    pub closed spec fn limits(&self) -> (usize, usize, u64) {
        (self.max_ranges, self.max_count, self.max_age_ms)
    }

    /// Every batch is below the count limit, or empty.
    pub closed spec fn wf(&self) -> bool {
        &&& self.per_source.wf()
        &&& forall|k: Seq<char>| #[trigger]
            self.per_source@.contains_key(k) ==> self.per_source@[k]@.count == 0
                || self.per_source@[k]@.count < self.max_count
    }

    /// An aggregator with no batches.
    pub fn new(max_ranges: usize, max_count: usize, max_age_ms: u64) -> (r: Self)
        ensures
            r.wf(),
            r.batches() == Map::<Seq<char>, BatchSpec>::empty(),
            r.limits() == (max_ranges, max_count, max_age_ms),
    {
        let r = SkipLogAggregator { per_source: StrMap::new(), max_ranges, max_count, max_age_ms };
        assert(r.batches() =~= Map::<Seq<char>, BatchSpec>::empty());
        r
    }

    fn report(source: &str, batch: &SkipLogBatch) -> (r: SkipReport)
        ensures
            report_view(r) == report_of(source@, batch@),
    {
        SkipReport {
            source: string_from_chars(str_chars(source).as_slice()),
            count: batch.count,
            ids: batch.ids_text(),
        }
    }

    /// Records that `msg_id` of `source` was skipped at `now_ms`, and gives the reports
    /// that this makes due, as `record_outcome` states.
    pub fn record(&mut self, source: &str, msg_id: i64, now_ms: u64) -> (r: Vec<SkipReport>)
        requires
            old(self).wf(),
        ensures
            final(self).wf(),
            final(self).limits() == old(self).limits(),
            ({
                let (b, reps) = record_outcome(
                    if old(self).batches().contains_key(source@) {
                        Some(old(self).batches()[source@])
                    } else {
                        None
                    },
                    source@,
                    msg_id,
                    now_ms,
                    old(self).limits().0,
                    old(self).limits().1,
                    old(self).limits().2,
                );
                &&& final(self).batches() == old(self).batches().insert(source@, b)
                &&& r@.map_values(|x: SkipReport| report_view(x)) == reps
            }),
    {
        let ghost old_map = self.per_source@;
        let (idx, mut batch) = match self.per_source.find(source) {
            Some(i) => {
                let b = self.per_source.replace(i, SkipLogBatch::new(now_ms));
                (Some(i), b)
            },
            None => (None, SkipLogBatch::new(now_ms)),
        };
        let ghost b0 = batch@;
        let mut out: Vec<SkipReport> = Vec::new();
        if batch.ranges.len() > 0 && time_since(batch.last_update_ms, now_ms) > self.max_age_ms {
            out.push(Self::report(source, &batch));
            batch.clear(now_ms);
        }
        batch.push(msg_id, now_ms);
        if batch.ranges.len() >= self.max_ranges || batch.count >= self.max_count {
            out.push(Self::report(source, &batch));
            batch.clear(now_ms);
        }
        let ghost nb = batch@;
        match idx {
            Some(i) => {
                self.per_source.replace(i, batch);
            },
            None => {
                let key = string_from_chars(str_chars(source).as_slice());
                self.per_source.push(key, batch);
            },
        }
        proof {
            assert(self.per_source@ =~= old_map.insert(source@, self.per_source@[source@]));
            assert(self.batches() =~= old(self).batches().insert(source@, nb));
            assert forall|k: Seq<char>| #[trigger]
                self.per_source@.contains_key(k) implies self.per_source@[k]@.count == 0
                || self.per_source@[k]@.count < self.max_count by {
                if k != source@ {
                    assert(old_map.contains_key(k));
                }
            }
        }
        proof {
            let (b, reps) = record_outcome(
                if old(self).batches().contains_key(source@) {
                    Some(old(self).batches()[source@])
                } else {
                    None
                },
                source@,
                msg_id,
                now_ms,
                self.max_ranges,
                self.max_count,
                self.max_age_ms,
            );
            assert(b == nb);
            assert(out@.map_values(|x: SkipReport| report_view(x)) =~= reps);
        }
        out
    }
}

/// Whether a flush at `now` takes batch `b`: every batch when `all`, else the stale ones.
pub open spec fn flush_hits(b: BatchSpec, now: u64, max_age: u64, all: bool) -> bool {
    all || stale(b, now, max_age)
}

/// The batches after a flush at `now`: those it takes are emptied.
pub open spec fn flushed(
    m: Map<Seq<char>, BatchSpec>,
    now: u64,
    max_age: u64,
    all: bool,
) -> Map<Seq<char>, BatchSpec> {
    m.map_values(
        |b: BatchSpec|
            if flush_hits(b, now, max_age, all) {
                empty_batch(now)
            } else {
                b
            },
    )
}

/// The reports of a flush at `now`: one for each batch it takes that has ids, each
/// source once, in no stated order.
pub open spec fn flush_reports(
    m: Map<Seq<char>, BatchSpec>,
    now: u64,
    max_age: u64,
    all: bool,
    r: Seq<ReportSpec>,
) -> bool {
    &&& forall|q: int|
        0 <= q < r.len() ==> m.contains_key(#[trigger] r[q].source) && flush_hits(
            m[r[q].source],
            now,
            max_age,
            all,
        ) && m[r[q].source].ranges.len() > 0 && r[q] == report_of(r[q].source, m[r[q].source])
    &&& forall|k: Seq<char>|
        #[trigger] m.contains_key(k) && flush_hits(m[k], now, max_age, all) && m[k].ranges.len()
            > 0 ==> exists|q: int| 0 <= q < r.len() && r[q].source == k
    &&& forall|p: int, q: int| 0 <= p < q < r.len() ==> r[p].source != r[q].source
}

impl SkipLogAggregator {
    fn flush_where(&mut self, now_ms: u64, all: bool) -> (r: Vec<SkipReport>)
        requires
            old(self).wf(),
        ensures
            final(self).wf(),
            final(self).limits() == old(self).limits(),
            final(self).batches() == flushed(old(self).batches(), now_ms, old(self).limits().2, all),
            flush_reports(
                old(self).batches(),
                now_ms,
                old(self).limits().2,
                all,
                r@.map_values(|x: SkipReport| report_view(x)),
            ),
    {
        let ghost old_map = self.per_source;
        let ghost max_age = self.max_age_ms;
        proof {
            old_map.lemma_view_keys();
            old_map.lemma_len();
        }
        let mut out: Vec<SkipReport> = Vec::new();
        let ghost mut idx: Seq<int> = Seq::empty();
        let n = self.per_source.len();
        let mut i: usize = 0;
        while i < n
            invariant
                self.per_source.wf(),
                old_map.wf(),
                n == old_map.spec_len(),
                self.per_source.spec_len() == n,
                i <= n,
                self.max_age_ms == max_age,
                self.max_ranges == old(self).max_ranges,
                self.max_count == old(self).max_count,
                old_map == old(self).per_source,
                forall|a: int, b: int| 0 <= a < b < n ==> old_map.key_at(a) != old_map.key_at(b),
                forall|j: int| 0 <= j < n ==> #[trigger] self.per_source.key_at(j) == old_map.key_at(j),
                forall|j: int|
                    0 <= j < i ==> (#[trigger] self.per_source.val_at(j))@ == if flush_hits(
                        old_map.val_at(j)@,
                        now_ms,
                        max_age,
                        all,
                    ) {
                        empty_batch(now_ms)
                    } else {
                        old_map.val_at(j)@
                    },
                forall|j: int| i <= j < n ==> #[trigger] self.per_source.val_at(j) == old_map.val_at(j),
                idx.len() == out@.len(),
                forall|p: int, q: int| 0 <= p < q < idx.len() ==> idx[p] < idx[q],
                forall|q: int|
                    0 <= q < idx.len() ==> 0 <= #[trigger] idx[q] < i && flush_hits(
                        old_map.val_at(idx[q])@,
                        now_ms,
                        max_age,
                        all,
                    ) && old_map.val_at(idx[q])@.ranges.len() > 0 && report_view(out@[q])
                        == report_of(old_map.key_at(idx[q]), old_map.val_at(idx[q])@),
                forall|j: int|
                    0 <= j < i && flush_hits(old_map.val_at(j)@, now_ms, max_age, all)
                        && old_map.val_at(j)@.ranges.len() > 0 ==> exists|q: int|
                        0 <= q < idx.len() && #[trigger] idx[q] == j,
            decreases n - i,
        {
            let hit = all || (self.per_source.val(i).ranges.len() > 0 && time_since(
                self.per_source.val(i).last_update_ms,
                now_ms,
            ) > self.max_age_ms);
            if hit {
                let mut batch = self.per_source.replace(i, SkipLogBatch::new(now_ms));
                if batch.ranges.len() > 0 {
                    let rep = Self::report(self.per_source.key(i).as_str(), &batch);
                    let ghost before = idx;
                    out.push(rep);
                    proof {
                        idx = idx.push(i as int);
                        assert forall|j: int|
                            0 <= j < i + 1 && flush_hits(old_map.val_at(j)@, now_ms, max_age, all)
                                && old_map.val_at(j)@.ranges.len() > 0 implies exists|q: int|
                                0 <= q < idx.len() && #[trigger] idx[q] == j by {
                            if j < i {
                                let q = choose|q: int| 0 <= q < before.len() && #[trigger] before[q] == j;
                                assert(idx[q] == j);
                            } else {
                                assert(idx[before.len() as int] == j);
                            }
                        }
                    }
                }
                batch.clear(now_ms);
                self.per_source.replace(i, batch);
            }
            i = i + 1;
        }
        proof {
            self.per_source.lemma_view_keys();
            let m = self.batches();
            let target = flushed(old(self).batches(), now_ms, max_age, all);
            assert forall|k: Seq<char>| #[trigger] m.contains_key(k) <==> target.contains_key(k) by {
                if m.contains_key(k) {
                    let j = choose|j: int| 0 <= j < n && self.per_source.key_at(j) == k;
                    assert(old_map@.contains_key(old_map.key_at(j)));
                }
                if target.contains_key(k) {
                    let j = choose|j: int| 0 <= j < n && old_map.key_at(j) == k;
                    assert(self.per_source@.contains_key(self.per_source.key_at(j)));
                }
            }
            assert forall|k: Seq<char>| #[trigger] m.contains_key(k) implies m[k] == target[k] by {
                let j = choose|j: int| 0 <= j < n && self.per_source.key_at(j) == k;
                assert(self.per_source@[self.per_source.key_at(j)] == self.per_source.val_at(j));
                assert(old_map@[old_map.key_at(j)] == old_map.val_at(j));
            }
            assert(m =~= target);
            assert forall|k: Seq<char>| #[trigger]
                self.per_source@.contains_key(k) implies self.per_source@[k]@.count == 0
                || self.per_source@[k]@.count < self.max_count by {
                let j = choose|j: int| 0 <= j < n && self.per_source.key_at(j) == k;
                assert(self.per_source@[self.per_source.key_at(j)] == self.per_source.val_at(j));
                assert(old_map@[old_map.key_at(j)] == old_map.val_at(j));
                assert(old_map@.contains_key(old_map.key_at(j)));
            }
            let reps = out@.map_values(|x: SkipReport| report_view(x));
            let om = old(self).batches();
            assert forall|q: int| 0 <= q < reps.len() implies om.contains_key(
                #[trigger] reps[q].source,
            ) && flush_hits(om[reps[q].source], now_ms, max_age, all)
                && om[reps[q].source].ranges.len() > 0 && reps[q] == report_of(
                reps[q].source,
                om[reps[q].source],
            ) by {
                assert(reps[q] == report_view(out@[q]));
                let j = idx[q];
                assert(old_map@[old_map.key_at(j)] == old_map.val_at(j));
            }
            assert forall|k: Seq<char>|
                #[trigger] om.contains_key(k) && flush_hits(om[k], now_ms, max_age, all)
                    && om[k].ranges.len() > 0 implies exists|q: int|
                    0 <= q < reps.len() && reps[q].source == k by {
                let j = choose|j: int| 0 <= j < n && old_map.key_at(j) == k;
                assert(old_map@[old_map.key_at(j)] == old_map.val_at(j));
                let q = choose|q: int| 0 <= q < idx.len() && #[trigger] idx[q] == j;
                assert(reps[q] == report_view(out@[q]));
            }
            assert forall|p: int, q: int| 0 <= p < q < reps.len() implies reps[p].source
                != reps[q].source by {
                assert(reps[p] == report_view(out@[p]));
                assert(reps[q] == report_view(out@[q]));
                assert(idx[p] < idx[q]);
            }
        }
        out
    }

    /// Reports and empties every batch that has gone quiet for longer than the maximum
    /// age at `now_ms`.
    pub fn flush_expired(&mut self, now_ms: u64) -> (r: Vec<SkipReport>)
        requires
            old(self).wf(),
        ensures
            final(self).wf(),
            final(self).limits() == old(self).limits(),
            final(self).batches() == flushed(old(self).batches(), now_ms, old(self).limits().2, false),
            flush_reports(
                old(self).batches(),
                now_ms,
                old(self).limits().2,
                false,
                r@.map_values(|x: SkipReport| report_view(x)),
            ),
    {
        self.flush_where(now_ms, false)
    }

    /// Reports every batch that has ids, and empties all batches as of `now_ms`.
    pub fn flush_all(&mut self, now_ms: u64) -> (r: Vec<SkipReport>)
        requires
            old(self).wf(),
        ensures
            final(self).wf(),
            final(self).limits() == old(self).limits(),
            final(self).batches() == flushed(old(self).batches(), now_ms, old(self).limits().2, true),
            flush_reports(
                old(self).batches(),
                now_ms,
                old(self).limits().2,
                true,
                r@.map_values(|x: SkipReport| report_view(x)),
            ),
    {
        self.flush_where(now_ms, true)
    }
}

/// Milliseconds from `since` to `now`, 0 when `now` is earlier.
fn time_since(since: u64, now: u64) -> (d: u64)
    ensures
        d == elapsed(since, now),
{
    if now > since {
        now - since
    } else {
        0
    }
}

/// A batch of one chat's skipped service or empty messages reaches this many ids
/// before it is reported.
pub const SERVICE_SKIP_MAX_COUNT: usize = 50;

/// A batch older than this many milliseconds is reported at its next id.
pub const SERVICE_SKIP_MAX_AGE_MS: u64 = 2000;

/// A report of skipped messages of one chat: the chat, the lowest and highest id, and
/// how many ids were recorded.
#[derive(Debug, Clone, Copy, PartialEq, Eq, Structural)]
pub struct ServiceSkipEntry {
    pub chat_id: i64,
    pub min_id: i64,
    pub max_id: i64,
    pub count: usize,
}

impl ServiceSkipEntry {
    /// The id range as text: the id alone, or `min-max`.
    pub fn ids_text(&self) -> (r: String)
        ensures
            r@ == range_text((self.min_id, self.max_id)),
    {
        let mut out: Vec<char> = Vec::new();
        push_decimal(self.min_id, &mut out);
        if self.min_id != self.max_id {
            out.push('-');
            push_decimal(self.max_id, &mut out);
        }
        assert(out@ =~= range_text((self.min_id, self.max_id)));
        string_from_chars(out.as_slice())
    }
}

/// Skipped messages of one chat at a time, reported when the chat changes, when the
/// batch is full, or when it has grown old.
pub struct ServiceSkipLog {
    chat_id: Option<i64>,
    min_id: i64,
    max_id: i64,
    count: usize,
    last_flush_ms: u64,
}

/// A service skip log as a mathematical value.
pub struct ServiceSkipSpec {
    pub chat_id: Option<i64>,
    pub min_id: i64,
    pub max_id: i64,
    pub count: nat,
    pub last_flush_ms: u64,
}

impl View for ServiceSkipLog {
    type V = ServiceSkipSpec;

    closed spec fn view(&self) -> ServiceSkipSpec {
        ServiceSkipSpec {
            chat_id: self.chat_id,
            min_id: self.min_id,
            max_id: self.max_id,
            count: self.count as nat,
            last_flush_ms: self.last_flush_ms,
        }
    }
}

/// The report of the current batch.
pub open spec fn service_entry(s: ServiceSkipSpec) -> ServiceSkipEntry {
    ServiceSkipEntry {
        chat_id: match s.chat_id {
            Some(c) => c,
            None => 0,
        },
        min_id: s.min_id,
        max_id: s.max_id,
        count: s.count as usize,
    }
}

/// A batch that starts with `id` of `chat` at `now`.
pub open spec fn service_started(chat: i64, id: i64, now: u64) -> ServiceSkipSpec {
    ServiceSkipSpec { chat_id: Some(chat), min_id: id, max_id: id, count: 1, last_flush_ms: now }
}

/// No batch, as of `now`.
pub open spec fn service_cleared(now: u64) -> ServiceSkipSpec {
    ServiceSkipSpec { chat_id: None, min_id: 0, max_id: 0, count: 0, last_flush_ms: now }
}

/// The log after recording `id` of `chat` at `now`, and the report it makes: the first
/// id starts a batch; an id of another chat reports the batch and starts a new one; an
/// id of the same chat widens the range, and the batch is reported and cleared once it
/// holds `SERVICE_SKIP_MAX_COUNT` ids or is `SERVICE_SKIP_MAX_AGE_MS` old.
pub open spec fn service_record(s: ServiceSkipSpec, chat: i64, id: i64, now: u64) -> (ServiceSkipSpec, Option<ServiceSkipEntry>) {
    match s.chat_id {
        None => (service_started(chat, id, now), None),
        Some(c) => if c != chat {
            (service_started(chat, id, now), Some(service_entry(s)))
        } else {
            let w = ServiceSkipSpec {
                min_id: if id < s.min_id {
                    id
                } else {
                    s.min_id
                },
                max_id: if id > s.max_id {
                    id
                } else {
                    s.max_id
                },
                count: s.count + 1,
                ..s
            };
            if w.count >= SERVICE_SKIP_MAX_COUNT || elapsed(s.last_flush_ms, now) >= SERVICE_SKIP_MAX_AGE_MS {
                (service_cleared(now), Some(service_entry(w)))
            } else {
                (w, None)
            }
        },
    }
}

impl ServiceSkipLog {
    /// A batch never reaches the count limit without being reported.
    pub closed spec fn wf(&self) -> bool {
        self.count < SERVICE_SKIP_MAX_COUNT
    }

    /// An empty log as of `now_ms`.
    pub fn new(now_ms: u64) -> (r: Self)
        ensures
            r.wf(),
            r@ == service_cleared(now_ms),
    {
        ServiceSkipLog { chat_id: None, min_id: 0, max_id: 0, count: 0, last_flush_ms: now_ms }
    }

    /// The report of the current batch.
    pub fn entry(&self) -> (r: ServiceSkipEntry)
        ensures
            r == service_entry(self@),
    {
        ServiceSkipEntry {
            chat_id: match self.chat_id {
                Some(c) => c,
                None => 0,
            },
            min_id: self.min_id,
            max_id: self.max_id,
            count: self.count,
        }
    }

    /// Starts a batch with `msg_id` of `chat_id` at `now_ms`.
    pub fn reset(&mut self, chat_id: i64, msg_id: i64, now_ms: u64)
        ensures
            final(self)@ == service_started(chat_id, msg_id, now_ms),
            final(self).wf(),
    {
        self.chat_id = Some(chat_id);
        self.min_id = msg_id;
        self.max_id = msg_id;
        self.count = 1;
        self.last_flush_ms = now_ms;
    }

    /// Empties the log as of `now_ms`.
    pub fn clear(&mut self, now_ms: u64)
        ensures
            final(self)@ == service_cleared(now_ms),
            final(self).wf(),
    {
        self.chat_id = None;
        self.min_id = 0;
        self.max_id = 0;
        self.count = 0;
        self.last_flush_ms = now_ms;
    }

    /// Records a skipped message, as `service_record` states.
    pub fn record(&mut self, chat_id: i64, msg_id: i64, now_ms: u64) -> (r: Option<ServiceSkipEntry>)
        requires
            old(self).wf(),
        ensures
            final(self).wf(),
            (final(self)@, r) == service_record(old(self)@, chat_id, msg_id, now_ms),
    {
        match self.chat_id {
            None => {
                self.reset(chat_id, msg_id, now_ms);
                return None;
            },
            Some(current) => {
                if current != chat_id {
                    let entry = self.entry();
                    self.reset(chat_id, msg_id, now_ms);
                    return Some(entry);
                }
            },
        }
        if msg_id < self.min_id {
            self.min_id = msg_id;
        }
        if msg_id > self.max_id {
            self.max_id = msg_id;
        }
        self.count = self.count + 1;
        if self.count >= SERVICE_SKIP_MAX_COUNT || time_since(self.last_flush_ms, now_ms)
            >= SERVICE_SKIP_MAX_AGE_MS {
            let entry = self.entry();
            self.clear(now_ms);
            return Some(entry);
        }
        None
    }
}

} // verus!
