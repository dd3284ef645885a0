//! Per-source progress: the last committed message id, the ids processed above it, and
//! the rules that move the committed id forward (in order, on overflow, after a gap timeout).
use crate::table::StrMap;
use crate::text::{chars_start_with, has_prefix, skip_char, trim_bounds, trim_start_char, trim_ws};
use crate::utf16::{str_chars, string_from_range};
use std::collections::BTreeSet;
use std::time::Instant;
use vstd::prelude::*;

verus! {

broadcast use vstd::std_specs::btree::group_btree_axioms, vstd::laws_cmp::group_laws_cmp;

/// Progress of one source.
pub struct SourceState {
    pub last_committed: i64,
    pub pending: BTreeSet<i64>,
}

/// Progress of one source as a mathematical value.
pub struct SourceSpec {
    pub last_committed: i64,
    pub pending: Set<i64>,
}

impl View for SourceState {
    type V = SourceSpec;

    open spec fn view(&self) -> SourceSpec {
        SourceSpec { last_committed: self.last_committed, pending: self.pending@ }
    }
}

/// Finitely many pending ids, all below `i64::MAX`.
pub open spec fn source_wf(s: SourceSpec) -> bool {
    &&& s.pending.finite()
    &&& forall|x: i64| #[trigger] s.pending.contains(x) ==> x < i64::MAX
}

/// A source with nothing committed and nothing pending.
pub open spec fn fresh_source() -> SourceSpec {
    SourceSpec { last_committed: 0, pending: Set::empty() }
}

impl SourceState {
    /// Nothing committed, nothing pending.
    pub fn new() -> (r: Self)
        ensures
            r@ == fresh_source(),
    {
        let r = SourceState { last_committed: 0, pending: BTreeSet::new() };
        assert(r@.pending =~= Set::<i64>::empty());
        r
    }
}

/// The smallest element of a `BTreeSet`, as `BTreeSet::first` documents it.
#[verifier::external_body]
fn set_first(s: &BTreeSet<i64>) -> (r: Option<i64>)
    ensures
        r is None <==> s@ == Set::<i64>::empty(),
        r matches Some(x) ==> s@.contains(x) && forall|y: i64| s@.contains(y) ==> x <= y,
{
    s.first().copied()
}

/// The smallest id of a non-empty set.
pub open spec fn set_min(s: Set<i64>) -> i64 {
    choose|m: i64| s.contains(m) && forall|y: i64| s.contains(y) ==> m <= y
}

/// The id just before `x`, saturating at `i64::MIN`.
pub open spec fn before_id(x: i64) -> i64 {
    if x == i64::MIN {
        x
    } else {
        (x - 1) as i64
    }
}

/// Milliseconds from `since` to `now`, or 0 when `now` is earlier.
pub open spec fn elapsed_ms(since: u64, now: u64) -> int {
    if now >= since {
        now - since
    } else {
        0
    }
}

/// How a source's progress and its gap clock settle: the committed id advances through
/// consecutive pending ids, stale pending ids at or below it are dropped, and a gap that
/// has lasted `timeout` milliseconds is skipped.
pub open spec fn advanced(s: SourceSpec, gap: Option<u64>, timeout: u64, now: u64) -> (
    SourceSpec,
    Option<u64>,
)
    decreases s.pending.len(),
{
    if !s.pending.finite() || s.last_committed == i64::MAX {
        (s, gap)
    } else if s.pending.contains((s.last_committed + 1) as i64) {
        advanced(
            SourceSpec {
                last_committed: (s.last_committed + 1) as i64,
                pending: s.pending.remove((s.last_committed + 1) as i64),
            },
            None,
            timeout,
            now,
        )
    } else if s.pending.len() == 0 {
        (s, None)
    } else {
        let m = set_min(s.pending);
        if !s.pending.contains(m) {
            (s, gap)
        } else if m <= s.last_committed {
            advanced(
                SourceSpec { last_committed: s.last_committed, pending: s.pending.remove(m) },
                gap,
                timeout,
                now,
            )
        } else {
            let since = match gap {
                Some(t) => t,
                None => now,
            };
            if elapsed_ms(since, now) >= timeout {
                advanced(
                    SourceSpec { last_committed: m, pending: s.pending.remove(m) },
                    None,
                    timeout,
                    now,
                )
            } else {
                (s, Some(since))
            }
        }
    }
}

/// A source's progress and gap clock after message `id` is processed.
pub open spec fn after_mark(
    s: SourceSpec,
    gap: Option<u64>,
    id: i64,
    limit: usize,
    timeout: u64,
    now: u64,
) -> (SourceSpec, Option<u64>) {
    if id <= s.last_committed {
        (s, gap)
    } else {
        let p = s.pending.insert(id);
        if p.len() > limit {
            advanced(
                SourceSpec { last_committed: before_id(set_min(p)), pending: p },
                None,
                timeout,
                now,
            )
        } else {
            advanced(SourceSpec { last_committed: s.last_committed, pending: p }, gap, timeout, now)
        }
    }
}

proof fn lemma_min(s: Set<i64>, x: i64)
    requires
        s.contains(x),
        forall|y: i64| s.contains(y) ==> x <= y,
    ensures
        set_min(s) == x,
{
    let m = set_min(s);
    assert(s.contains(m) && forall|y: i64| s.contains(y) ==> m <= y);
}

proof fn lemma_adv_next(s: SourceSpec, gap: Option<u64>, timeout: u64, now: u64)
    requires
        s.pending.finite(),
        s.last_committed < i64::MAX,
        s.pending.contains((s.last_committed + 1) as i64),
    ensures
        advanced(s, gap, timeout, now) == advanced(
            SourceSpec {
                last_committed: (s.last_committed + 1) as i64,
                pending: s.pending.remove((s.last_committed + 1) as i64),
            },
            None,
            timeout,
            now,
        ),
{
}

proof fn lemma_adv_empty(s: SourceSpec, gap: Option<u64>, timeout: u64, now: u64)
    requires
        s.pending.finite(),
        s.last_committed < i64::MAX,
        s.pending == Set::<i64>::empty(),
    ensures
        advanced(s, gap, timeout, now) == (s, Option::<u64>::None),
{
    assert(!s.pending.contains((s.last_committed + 1) as i64));
}

proof fn lemma_adv_stale(s: SourceSpec, gap: Option<u64>, timeout: u64, now: u64, m: i64)
    requires
        s.pending.finite(),
        s.last_committed < i64::MAX,
        !s.pending.contains((s.last_committed + 1) as i64),
        s.pending.contains(m),
        forall|y: i64| s.pending.contains(y) ==> m <= y,
        m <= s.last_committed,
    ensures
        advanced(s, gap, timeout, now) == advanced(
            SourceSpec { last_committed: s.last_committed, pending: s.pending.remove(m) },
            gap,
            timeout,
            now,
        ),
{
    lemma_min(s.pending, m);
    assert(s.pending.len() != 0);
}

proof fn lemma_adv_gap(s: SourceSpec, gap: Option<u64>, timeout: u64, now: u64, m: i64)
    requires
        s.pending.finite(),
        s.last_committed < i64::MAX,
        !s.pending.contains((s.last_committed + 1) as i64),
        s.pending.contains(m),
        forall|y: i64| s.pending.contains(y) ==> m <= y,
        m > s.last_committed,
    ensures
        ({
            let since = match gap {
                Some(t) => t,
                None => now,
            };
            advanced(s, gap, timeout, now) == if elapsed_ms(since, now) >= timeout {
                advanced(
                    SourceSpec { last_committed: m, pending: s.pending.remove(m) },
                    None,
                    timeout,
                    now,
                )
            } else {
                (s, Some(since))
            }
        }),
{
    lemma_min(s.pending, m);
    assert(s.pending.len() != 0);
}

/// Settles `st` and `gap` as `advanced` states.
fn advance_commit(st: &mut SourceState, gap: &mut Option<u64>, timeout: u64, now: u64)
    requires
        source_wf(old(st)@),
        old(st).last_committed < i64::MAX,
    ensures
        source_wf(final(st)@),
        (final(st)@, *final(gap)) == advanced(old(st)@, *old(gap), timeout, now),
{
    loop
        invariant
            source_wf(st@),
            st.last_committed < i64::MAX,
            advanced(st@, *gap, timeout, now) == advanced(old(st)@, *old(gap), timeout, now),
        decreases st@.pending.len(),
    {
        let next = st.last_committed + 1;
        let ghost before = st@;
        let ghost g0 = *gap;
        if st.pending.remove(&next) {
            proof {
                lemma_adv_next(before, g0, timeout, now);
            }
            st.last_committed = next;
            *gap = None;
            continue ;
        }
        assert(st@.pending =~= before.pending);
        if st.pending.is_empty() {
            proof {
                assert(st@.pending =~= Set::<i64>::empty());
                lemma_adv_empty(st@, g0, timeout, now);
            }
            *gap = None;
            return ;
        }
        let first = set_first(&st.pending);
        let m = match first {
            Some(x) => x,
            None => {
                return ;
            },
        };
        if m <= st.last_committed {
            proof {
                lemma_adv_stale(before, g0, timeout, now, m);
            }
            st.pending.remove(&m);
            continue ;
        }
        proof {
            lemma_adv_gap(before, g0, timeout, now, m);
        }
        let since = match *gap {
            Some(t) => t,
            None => now,
        };
        let elapsed = if now >= since {
            now - since
        } else {
            0
        };
        if elapsed >= timeout {
            st.pending.remove(&m);
            st.last_committed = m;
            *gap = None;
            continue ;
        }
        *gap = Some(since);
        return ;
    }
}

/// A source key without surrounding whitespace, without a leading `https://t.me/`,
/// `http://t.me/` or `t.me/`, and without leading `@`s.
pub open spec fn normalized_key(raw: Seq<char>) -> Seq<char> {
    let t = trim_ws(raw);
    let w = if has_prefix(t, "https://t.me/"@) {
        t.skip("https://t.me/"@.len() as int)
    } else if has_prefix(t, "http://t.me/"@) {
        t.skip("http://t.me/"@.len() as int)
    } else if has_prefix(t, "t.me/"@) {
        t.skip("t.me/"@.len() as int)
    } else {
        t
    };
    trim_start_char(w, '@')
}

/// Normalizes a source key as `normalized_key` states.
pub fn normalize_source_key(raw: &str) -> (r: String)
    ensures
        r@ == normalized_key(raw@),
{
    let cs = str_chars(raw);
    let (a, b) = trim_bounds(cs.as_slice());
    let mut t: Vec<char> = Vec::new();
    let mut i = a;
    while i < b
        invariant
            a <= i <= b <= cs@.len(),
            t@ == cs@.subrange(a as int, i as int),
        decreases b - i,
    {
        t.push(cs[i]);
        i = i + 1;
    }
    let https = str_chars("https://t.me/");
    let http = str_chars("http://t.me/");
    let short = str_chars("t.me/");
    let from = if chars_start_with(t.as_slice(), https.as_slice()) {
        https.len()
    } else if chars_start_with(t.as_slice(), http.as_slice()) {
        http.len()
    } else if chars_start_with(t.as_slice(), short.as_slice()) {
        short.len()
    } else {
        0
    };
    assert(t@.skip(0) =~= t@);
    let start = skip_char(t.as_slice(), from, '@');
    assert(t@.skip(start as int) =~= t@.subrange(start as int, t@.len() as int));
    string_from_range(t.as_slice(), start, t.len())
}

/// The key under which a source's gap clock is kept: its normalized key, or
/// `__default__` for the default progress.
pub open spec fn runtime_key(key: Option<Seq<char>>) -> Seq<char> {
    match key {
        Some(k) => k,
        None => "__default__"@,
    }
}

/// Progress of every source, the default progress, and when each open gap was first seen.
pub struct StateStore {
    last_committed_by_source: StrMap<SourceState>,
    last_committed_default: SourceState,
    gap_runtime: StrMap<Option<u64>>,
    pending_limit: usize,
    gap_timeout_ms: u64,
    dirty: bool,
    clock_origin: Instant,
}

/// Ids the app loaded for the committed position: one per source, or one for all.
pub enum CommittedIds {
    PerSource(Vec<(String, i64)>),
    Single(i64),
}

impl StateStore {
    /// Tables well formed and every progress well formed.
    pub closed spec fn wf(&self) -> bool {
        &&& self.last_committed_by_source.wf()
        &&& self.gap_runtime.wf()
        &&& source_wf(self.last_committed_default@)
        &&& forall|k: Seq<char>| #[trigger]
            self.last_committed_by_source@.contains_key(k) ==> source_wf(
                self.last_committed_by_source@[k]@,
            )
    }

    /// Progress per normalized source key.
    pub closed spec fn sources(&self) -> Map<Seq<char>, SourceSpec> {
        self.last_committed_by_source@.map_values(|s: SourceState| s@)
    }

    /// Progress of messages that carry no source key.
    pub closed spec fn default_source(&self) -> SourceSpec {
        self.last_committed_default@
    }

    /// When the open gap under runtime key `rk` was first seen, if one is open.
    pub closed spec fn gap_since(&self, rk: Seq<char>) -> Option<u64> {
        if self.gap_runtime@.contains_key(rk) {
            self.gap_runtime@[rk]
        } else {
            None
        }
    }

    pub closed spec fn spec_pending_limit(&self) -> usize {
        self.pending_limit
    }

    pub closed spec fn spec_gap_timeout_ms(&self) -> u64 {
        self.gap_timeout_ms
    }

    pub closed spec fn spec_dirty(&self) -> bool {
        self.dirty
    }

    /// The progress that applies to `key`: its own, or the default one.
    pub open spec fn progress_for(&self, key: Option<Seq<char>>) -> SourceSpec {
        match key {
            Some(k) => if self.sources().contains_key(k) {
                self.sources()[k]
            } else {
                self.default_source()
            },
            None => self.default_source(),
        }
    }

    /// Whether message `id` counts as processed under `key`.
    pub open spec fn processed(&self, key: Option<Seq<char>>, id: i64) -> bool {
        id <= self.progress_for(key).last_committed || self.progress_for(key).pending.contains(
            id,
        )
    }

    /// Nothing recorded; a pending limit of 2000 and a gap timeout of 300 seconds.
    pub fn new() -> (r: Self)
        ensures
            r.wf(),
            r.sources() == Map::<Seq<char>, SourceSpec>::empty(),
            r.default_source() == fresh_source(),
            forall|rk: Seq<char>| r.gap_since(rk) is None,
            r.spec_pending_limit() == 2000,
            r.spec_gap_timeout_ms() == 300_000,
            !r.spec_dirty(),
    {
        let r = StateStore {
            last_committed_by_source: StrMap::new(),
            last_committed_default: SourceState::new(),
            gap_runtime: StrMap::new(),
            pending_limit: 2000,
            gap_timeout_ms: 300_000,
            dirty: false,
            clock_origin: monotonic_now(),
        };
        assert(r.sources() =~= Map::<Seq<char>, SourceSpec>::empty());
        r
    }

    /// Sets the pending limit and the gap timeout (in seconds, saturating at
    /// `u64::MAX` milliseconds); a zero leaves the setting as it was.
    pub fn set_gap_config(&mut self, pending_limit: usize, gap_timeout: u64)
        requires
            old(self).wf(),
        ensures
            final(self).wf(),
            final(self).sources() == old(self).sources(),
            final(self).default_source() == old(self).default_source(),
            forall|rk: Seq<char>| final(self).gap_since(rk) == old(self).gap_since(rk),
            final(self).spec_dirty() == old(self).spec_dirty(),
            final(self).spec_pending_limit() == if pending_limit > 0 {
                pending_limit
            } else {
                old(self).spec_pending_limit()
            },
            final(self).spec_gap_timeout_ms() == if gap_timeout > 0 {
                if gap_timeout * 1000 > u64::MAX {
                    u64::MAX
                } else {
                    (gap_timeout * 1000) as u64
                }
            } else {
                old(self).spec_gap_timeout_ms()
            },
    {
        if pending_limit > 0 {
            self.pending_limit = pending_limit;
        }
        if gap_timeout > 0 {
            self.gap_timeout_ms = if gap_timeout > u64::MAX / 1000 {
                u64::MAX
            } else {
                gap_timeout * 1000
            };
        }
    }

    /// The committed id for `source_key`, or the default one when it has none.
    pub fn get_min_id(&self, source_key: &str) -> (r: i64)
        requires
            self.wf(),
        ensures
            r == self.progress_for(Some(normalized_key(source_key@))).last_committed,
    {
        let key = normalize_source_key(source_key);
        match self.last_committed_by_source.find(key.as_str()) {
            Some(i) => self.last_committed_by_source.val(i).last_committed,
            None => self.last_committed_default.last_committed,
        }
    }

    /// Whether `msg_id` is at or below the committed id, or pending, for `source_key`.
    pub fn is_processed(&self, source_key: Option<&str>, msg_id: i64) -> (r: bool)
        requires
            self.wf(),
        ensures
            r == self.processed(key_view(source_key), msg_id),
    {
        let st = match source_key {
            Some(raw) => {
                let key = normalize_source_key(raw);
                match self.last_committed_by_source.find(key.as_str()) {
                    Some(i) => self.last_committed_by_source.val(i),
                    None => &self.last_committed_default,
                }
            },
            None => &self.last_committed_default,
        };
        if msg_id <= st.last_committed {
            return true;
        }
        st.pending.contains(&msg_id)
    }
}

impl StateStore {
    /// The progress a source's own entry holds: a fresh one when it has none yet.
    pub open spec fn own_progress(&self, key: Option<Seq<char>>) -> SourceSpec {
        match key {
            Some(k) => if self.sources().contains_key(k) {
                self.sources()[k]
            } else {
                fresh_source()
            },
            None => self.default_source(),
        }
    }

    /// Index of the entry for `key`, adding a fresh one when there is none.
    fn entry_index(&mut self, key: &String) -> (i: usize)
        requires
            old(self).wf(),
        ensures
            final(self).wf(),
            i < final(self).last_committed_by_source.spec_len(),
            final(self).last_committed_by_source.key_at(i as int) == key@,
            final(self).last_committed_by_source@[key@]@ == old(self).own_progress(Some(key@)),
            final(self).sources() == old(self).sources().insert(
                key@,
                old(self).own_progress(Some(key@)),
            ),
            final(self).last_committed_default == old(self).last_committed_default,
            final(self).gap_runtime@ == old(self).gap_runtime@,
            final(self).pending_limit == old(self).pending_limit,
            final(self).gap_timeout_ms == old(self).gap_timeout_ms,
            final(self).dirty == old(self).dirty,
    {
        match self.last_committed_by_source.find(key.as_str()) {
            Some(i) => {
                assert(self.sources() =~= self.sources().insert(key@, self.own_progress(Some(key@))));
                i
            },
            None => {
                let k = key.clone();
                self.last_committed_by_source.push(k, SourceState::new());
                proof {
                    self.last_committed_by_source.lemma_view_keys();
                    assert forall|kk: Seq<char>| #[trigger]
                        self.last_committed_by_source@.contains_key(kk) implies source_wf(
                        self.last_committed_by_source@[kk]@,
                    ) by {
                        if kk != key@ {
                            assert(old(self).last_committed_by_source@.contains_key(kk));
                        }
                        assert(fresh_source().pending =~= Set::<i64>::empty());
                    }
                    assert(self.sources() =~= old(self).sources().insert(
                        key@,
                        old(self).own_progress(Some(key@)),
                    ));
                }
                self.last_committed_by_source.len() - 1
            },
        }
    }

    /// Current gap clock under runtime key `rk`.
    fn gap_of(&self, rk: &String) -> (g: Option<u64>)
        requires
            self.wf(),
        ensures
            g == self.gap_since(rk@),
    {
        match self.gap_runtime.find(rk.as_str()) {
            Some(i) => *self.gap_runtime.val(i),
            None => None,
        }
    }

    /// Sets the gap clock under runtime key `rk`.
    fn set_gap(&mut self, rk: String, g: Option<u64>)
        requires
            old(self).wf(),
        ensures
            final(self).wf(),
            final(self).gap_since(rk@) == g,
            forall|k: Seq<char>| k != rk@ ==> final(self).gap_since(k) == old(self).gap_since(k),
            final(self).last_committed_by_source@ == old(self).last_committed_by_source@,
            final(self).last_committed_default == old(self).last_committed_default,
            final(self).pending_limit == old(self).pending_limit,
            final(self).gap_timeout_ms == old(self).gap_timeout_ms,
            final(self).dirty == old(self).dirty,
    {
        match self.gap_runtime.find(rk.as_str()) {
            Some(i) => {
                self.gap_runtime.replace(i, g);
            },
            None => {
                self.gap_runtime.push(rk, g);
            },
        }
    }

    /// Records message `msg_id` of `source_key` as processed at time `now_ms` (in
    /// milliseconds) with gap timeout `gap_timeout_ms`, as `after_mark` states: ids at
    /// or below the committed id change nothing; otherwise the id becomes pending, an
    /// overflow of the pending limit commits everything below the smallest pending id,
    /// and the committed id advances.
    #[verifier::rlimit(60)]
    pub fn mark_processed_at(
        &mut self,
        source_key: Option<&str>,
        msg_id: i64,
        gap_timeout_ms: u64,
        now_ms: u64,
    )
        requires
            old(self).wf(),
            msg_id < i64::MAX,
        ensures
            final(self).wf(),
            mark_effect(*old(self), *final(self), key_view(source_key), msg_id, gap_timeout_ms, now_ms),
    {
        let key: Option<String> = match source_key {
            Some(raw) => Some(normalize_source_key(raw)),
            None => None,
        };
        let rk: String = match &key {
            Some(k) => k.clone(),
            None => "__default__".to_owned(),
        };
        let slot: Option<usize> = match &key {
            Some(k) => Some(self.entry_index(k)),
            None => None,
        };
        let ghost mid = *self;
        proof {
            mid.last_committed_by_source.lemma_view_keys();
        }
        let mut st = match slot {
            Some(i) => {
                assert(mid.last_committed_by_source@.contains_key(
                    mid.last_committed_by_source.key_at(i as int),
                ));
                self.last_committed_by_source.replace(i, SourceState::new())
            },
            None => {
                let mut tmp = SourceState::new();
                std::mem::swap(&mut self.last_committed_default, &mut tmp);
                tmp
            },
        };
        if msg_id <= st.last_committed {
            self.put_back(slot, st, Ghost(mid));
            return ;
        }
        st.pending.insert(msg_id);
        self.dirty = true;
        let mut gap = self.gap_of(&rk);
        if st.pending.len() > self.pending_limit {
            let first = set_first(&st.pending);
            match first {
                Some(m) => {
                    proof {
                        lemma_min(st@.pending, m);
                    }
                    st.last_committed = if m == i64::MIN {
                        m
                    } else {
                        m - 1
                    };
                },
                None => {},
            }
            gap = None;
        }
        advance_commit(&mut st, &mut gap, gap_timeout_ms, now_ms);
        self.put_back(slot, st, Ghost(mid));
        self.set_gap(rk, gap);
    }

    /// Puts a source's progress back where `mark_processed_at` took it from.
    fn put_back(&mut self, slot: Option<usize>, st: SourceState, Ghost(mid): Ghost<StateStore>)
        requires
            mid.wf(),
            source_wf(st@),
            match slot {
                Some(i) => i < mid.last_committed_by_source.spec_len()
                    && old(self).last_committed_by_source.spec_len()
                    == mid.last_committed_by_source.spec_len() && (forall|j: int|
                    0 <= j < mid.last_committed_by_source.spec_len()
                        ==> old(self).last_committed_by_source.key_at(j)
                        == mid.last_committed_by_source.key_at(j)) && (forall|j: int|
                    0 <= j < mid.last_committed_by_source.spec_len() && j != i
                        ==> old(self).last_committed_by_source.val_at(j)
                        == mid.last_committed_by_source.val_at(j))
                    && old(self).last_committed_by_source.wf()
                    && old(self).last_committed_default == mid.last_committed_default,
                None => old(self).last_committed_by_source@ == mid.last_committed_by_source@
                    && old(self).last_committed_by_source.wf(),
            },
            old(self).gap_runtime.wf(),
        ensures
            final(self).gap_runtime@ == old(self).gap_runtime@,
            final(self).gap_runtime.wf(),
            final(self).pending_limit == old(self).pending_limit,
            final(self).gap_timeout_ms == old(self).gap_timeout_ms,
            final(self).dirty == old(self).dirty,
            final(self).last_committed_by_source.wf(),
            source_wf(final(self).last_committed_default@),
            match slot {
                Some(i) => final(self).sources() == mid.sources().insert(
                    mid.last_committed_by_source.key_at(i as int),
                    st@,
                ) && final(self).default_source() == mid.default_source(),
                None => final(self).sources() == mid.sources() && final(self).default_source()
                    == st@,
            },
            forall|k: Seq<char>| #[trigger]
                final(self).last_committed_by_source@.contains_key(k) ==> source_wf(
                final(self).last_committed_by_source@[k]@,
            ),
    {
        match slot {
            Some(i) => {
                let ghost before = *self;
                self.last_committed_by_source.replace(i, st);
                proof {
                    mid.last_committed_by_source.lemma_view_keys();
                    before.last_committed_by_source.lemma_view_keys();
                    self.last_committed_by_source.lemma_view_keys();
                    let mk = mid.last_committed_by_source.key_at(i as int);
                    assert forall|k: Seq<char>| #[trigger]
                        self.last_committed_by_source@.contains_key(k) implies source_wf(
                        self.last_committed_by_source@[k]@,
                    ) by {
                        if k != mk {
                            let j = choose|j: int|
                                0 <= j < self.last_committed_by_source.spec_len()
                                    && self.last_committed_by_source.key_at(j) == k;
                            assert(before.last_committed_by_source.key_at(j) == k);
                            assert(mid.last_committed_by_source.key_at(j) == k);
                            assert(mid.last_committed_by_source@.contains_key(k));
                            assert(self.last_committed_by_source.val_at(j)
                                == mid.last_committed_by_source.val_at(j));
                        }
                    }
                    assert forall|k: Seq<char>| #[trigger]
                        self.sources().contains_key(k) implies mid.sources().insert(
                        mk,
                        st@,
                    ).contains_key(k) && self.sources()[k] == mid.sources().insert(mk, st@)[k] by {
                        let j = choose|j: int|
                            0 <= j < self.last_committed_by_source.spec_len()
                                && self.last_committed_by_source.key_at(j) == k;
                        assert(before.last_committed_by_source.key_at(j) == k);
                        assert(mid.last_committed_by_source.key_at(j) == k);
                        assert(mid.last_committed_by_source@.contains_key(k));
                        if k != mk {
                            assert(self.last_committed_by_source.val_at(j)
                                == mid.last_committed_by_source.val_at(j));
                        }
                    }
                    assert forall|k: Seq<char>| #[trigger]
                        mid.sources().insert(mk, st@).contains_key(k) implies self.sources().contains_key(k) by {
                        if k != mk {
                            let j = choose|j: int|
                                0 <= j < mid.last_committed_by_source.spec_len()
                                    && mid.last_committed_by_source.key_at(j) == k;
                            assert(before.last_committed_by_source.key_at(j) == k);
                            assert(self.last_committed_by_source.key_at(j) == k);
                        }
                    }
                    assert(self.sources() =~= mid.sources().insert(mk, st@));
                }
            },
            None => {
                self.last_committed_default = st;
                assert(self.sources() =~= mid.sources());
            },
        }
    }
}

/// How one call that records `id` under `key` at time `now` changes the store.
pub open spec fn mark_effect(
    old: StateStore,
    new: StateStore,
    key: Option<Seq<char>>,
    id: i64,
    timeout: u64,
    now: u64,
) -> bool {
    let rk = runtime_key(key);
    let st = old.own_progress(key);
    let (st2, g2) = after_mark(st, old.gap_since(rk), id, old.spec_pending_limit(), timeout, now);
    &&& match key {
        Some(k) => new.sources() =~= old.sources().insert(k, st2) && new.default_source()
            == old.default_source(),
        None => new.sources() =~= old.sources() && new.default_source() == st2,
    }
    &&& id > st.last_committed ==> new.gap_since(rk) == g2 && new.spec_dirty()
    &&& id <= st.last_committed ==> new.gap_since(rk) == old.gap_since(rk) && new.spec_dirty()
        == old.spec_dirty()
    &&& forall|k: Seq<char>| k != rk ==> new.gap_since(k) == old.gap_since(k)
    &&& new.spec_pending_limit() == old.spec_pending_limit()
    &&& new.spec_gap_timeout_ms() == old.spec_gap_timeout_ms()
}

/// A point in time on the monotonic clock.
#[verifier::external_type_specification]
#[verifier::external_body]
pub struct ExInstant(Instant);

/// `Instant::now`: the current reading of the monotonic clock. Nothing is stated of it.
#[verifier::external_body]
fn monotonic_now() -> Instant {
    Instant::now()
}

/// `Instant::elapsed` in whole milliseconds (`Duration::as_millis`, cut to `u64`): the
/// monotonic time since `origin`. Nothing is stated of it, as it depends on the clock.
#[verifier::external_body]
fn millis_since(origin: &Instant) -> u64 {
    origin.elapsed().as_millis() as u64
}

impl StateStore {
    /// Records message `msg_id` as processed with gap timeout `gap_timeout_ms`, at the
    /// current time: the milliseconds since the store was made, on the monotonic clock.
    pub fn mark_processed_with_timeout(
        &mut self,
        source_key: Option<&str>,
        msg_id: i64,
        gap_timeout_ms: u64,
    )
        requires
            old(self).wf(),
            msg_id < i64::MAX,
        ensures
            final(self).wf(),
            exists|now: u64|
                mark_effect(
                    *old(self),
                    *final(self),
                    key_view(source_key),
                    msg_id,
                    gap_timeout_ms,
                    now,
                ),
    {
        let now = millis_since(&self.clock_origin);
        self.mark_processed_at(source_key, msg_id, gap_timeout_ms, now);
    }

    /// Records message `msg_id` as processed with the configured gap timeout.
    pub fn mark_processed(&mut self, source_key: Option<&str>, msg_id: i64)
        requires
            old(self).wf(),
            msg_id < i64::MAX,
        ensures
            final(self).wf(),
            exists|now: u64|
                mark_effect(
                    *old(self),
                    *final(self),
                    key_view(source_key),
                    msg_id,
                    old(self).spec_gap_timeout_ms(),
                    now,
                ),
    {
        let timeout = self.gap_timeout_ms;
        self.mark_processed_with_timeout(source_key, msg_id, timeout);
    }

    /// Same as `mark_processed`.
    pub fn update(&mut self, source_key: Option<&str>, msg_id: i64)
        requires
            old(self).wf(),
            msg_id < i64::MAX,
        ensures
            final(self).wf(),
            exists|now: u64|
                mark_effect(
                    *old(self),
                    *final(self),
                    key_view(source_key),
                    msg_id,
                    old(self).spec_gap_timeout_ms(),
                    now,
                ),
    {
        self.mark_processed(source_key, msg_id);
    }

    /// Whether changes await saving.
    pub fn is_dirty(&self) -> (r: bool)
        ensures
            r == self.spec_dirty(),
    {
        self.dirty
    }

    /// Settles a save after the caller tried to write the changes out: once `written`,
    /// the changes count as saved and the result is whether there were any; a failed
    /// write leaves them awaiting the next save, and the result is false.
    pub fn settle_flush(&mut self, written: bool) -> (r: bool)
        requires
            old(self).wf(),
        ensures
            final(self).wf(),
            r == (written && old(self).spec_dirty()),
            final(self).spec_dirty() == (!written && old(self).spec_dirty()),
            final(self).sources() == old(self).sources(),
            final(self).default_source() == old(self).default_source(),
            forall|k: Seq<char>| final(self).gap_since(k) == old(self).gap_since(k),
            final(self).spec_pending_limit() == old(self).spec_pending_limit(),
            final(self).spec_gap_timeout_ms() == old(self).spec_gap_timeout_ms(),
    {
        if written {
            self.flush()
        } else {
            false
        }
    }

    /// Takes the pending-save flag: returns whether changes awaited saving and marks
    /// them saved. The caller writes the state out first, and calls this only once that
    /// succeeded.
    pub fn flush(&mut self) -> (r: bool)
        requires
            old(self).wf(),
        ensures
            final(self).wf(),
            r == old(self).spec_dirty(),
            !final(self).spec_dirty(),
            final(self).sources() == old(self).sources(),
            final(self).default_source() == old(self).default_source(),
            forall|k: Seq<char>| final(self).gap_since(k) == old(self).gap_since(k),
            final(self).spec_pending_limit() == old(self).spec_pending_limit(),
            final(self).spec_gap_timeout_ms() == old(self).spec_gap_timeout_ms(),
    {
        let was = self.dirty;
        self.dirty = false;
        was
    }
}

/// The target's progress after the progress `fs` of another key is merged into `ts`:
/// the larger committed id, and the pending ids of both above it (those of `ts` all kept).
pub open spec fn migrated_target(fs: SourceSpec, ts: SourceSpec) -> SourceSpec {
    let nl = if fs.last_committed > ts.last_committed {
        fs.last_committed
    } else {
        ts.last_committed
    };
    SourceSpec {
        last_committed: nl,
        pending: ts.pending.union(fs.pending.filter(|x: i64| x > nl)),
    }
}

/// How `migrate_source_key` changes the store for normalized keys `f` and `t`.
pub open spec fn migrate_effect(old: StateStore, new: StateStore, f: Seq<char>, t: Seq<char>) -> bool {
    &&& new.spec_pending_limit() == old.spec_pending_limit()
    &&& new.spec_gap_timeout_ms() == old.spec_gap_timeout_ms()
    &&& new.default_source() == old.default_source()
    &&& if f == t || !old.sources().contains_key(f) {
        &&& new.sources() =~= old.sources()
        &&& forall|k: Seq<char>| new.gap_since(k) == old.gap_since(k)
        &&& new.spec_dirty() == old.spec_dirty()
    } else {
        &&& new.sources() =~= old.sources().remove(f).insert(
            t,
            migrated_target(old.sources()[f], old.own_progress(Some(t))),
        )
        &&& new.gap_since(f) is None
        &&& forall|k: Seq<char>| k != f ==> new.gap_since(k) == old.gap_since(k)
        &&& new.spec_dirty()
    }
}

impl StateStore {
    /// Moves the progress recorded under `from` to `to`: the larger committed id wins,
    /// pending ids of `from` above it join those of `to`, and the gap clock of `from` is
    /// dropped. Nothing changes when the keys normalize alike or `from` has no entry.
    pub fn migrate_source_key(&mut self, from: &str, to: &str)
        requires
            old(self).wf(),
        ensures
            final(self).wf(),
            migrate_effect(*old(self), *final(self), normalized_key(from@), normalized_key(to@)),
    {
        let from_key = normalize_source_key(from);
        let to_key = normalize_source_key(to);
        if crate::table::str_eq(from_key.as_str(), to_key.as_str()) {
            return ;
        }
        let fi = match self.last_committed_by_source.find(from_key.as_str()) {
            Some(i) => i,
            None => {
                return ;
            },
        };
        let ghost s0 = *self;
        proof {
            s0.last_committed_by_source.lemma_view_keys();
        }
        let mut fs = self.last_committed_by_source.remove_at(fi);
        assert(self.sources() =~= s0.sources().remove(from_key@));
        assert(fs@ == s0.sources()[from_key@]);
        assert(source_wf(fs@));
        let ghost s1 = *self;
        let ti = self.entry_index(&to_key);
        assert(s1.own_progress(Some(to_key@)) == s0.own_progress(Some(to_key@)));
        let ghost s2 = *self;
        proof {
            s2.last_committed_by_source.lemma_view_keys();
            assert(s2.last_committed_by_source@.contains_key(to_key@));
        }
        let mut ts = self.last_committed_by_source.replace(ti, SourceState::new());
        let ghost ts0 = ts@;
        let ghost fs0 = fs@;
        assert(ts0 == s0.own_progress(Some(to_key@)));
        assert(source_wf(ts0));
        if fs.last_committed > ts.last_committed {
            ts.last_committed = fs.last_committed;
        }
        let ghost nl = ts.last_committed;
        loop
            invariant
                fs@.pending.finite(),
                fs@.pending.subset_of(fs0.pending),
                source_wf(fs0),
                source_wf(ts0),
                ts.last_committed == nl,
                ts@.pending.finite(),
                ts@.pending =~= ts0.pending.union(
                    fs0.pending.difference(fs@.pending).filter(|x: i64| x > nl),
                ),
            ensures
                fs@.pending =~= Set::<i64>::empty(),
                ts.last_committed == nl,
                ts@.pending =~= ts0.pending.union(
                    fs0.pending.difference(fs@.pending).filter(|x: i64| x > nl),
                ),
            decreases fs@.pending.len(),
        {
            let first = set_first(&fs.pending);
            match first {
                Some(x) => {
                    fs.pending.remove(&x);
                    if x > ts.last_committed {
                        ts.pending.insert(x);
                    }
                },
                None => {
                    break ;
                },
            }
        }
        assert(fs0.pending.difference(fs@.pending) =~= fs0.pending);
        assert(ts@ == migrated_target(fs0, ts0));
        assert(source_wf(ts@));
        let ghost s3 = *self;
        let ghost tsv = ts;
        self.last_committed_by_source.replace(ti, ts);
        proof {
            self.last_committed_by_source.lemma_view_keys();
            assert(self.last_committed_by_source@ =~= s2.last_committed_by_source@.insert(to_key@, tsv));
            assert(s2.sources() =~= s0.sources().remove(from_key@).insert(to_key@, ts0));
            assert(self.sources() =~= s2.sources().insert(to_key@, tsv@));
            assert forall|k: Seq<char>| #[trigger]
                self.last_committed_by_source@.contains_key(k) implies source_wf(
                self.last_committed_by_source@[k]@,
            ) by {
                if k != to_key@ {
                    assert(s2.last_committed_by_source@.contains_key(k));
                } else {
                    assert(self.last_committed_by_source@[k] == tsv);
                }
            }
            assert(self.sources() =~= s0.sources().remove(from_key@).insert(
                to_key@,
                migrated_target(fs0, ts0),
            ));
        }
        assert(self.gap_runtime@ == s0.gap_runtime@);
        assert(forall|k: Seq<char>| self.gap_since(k) == s0.gap_since(k));
        let ghost s4 = *self;
        self.set_gap(from_key, None);
        assert(forall|k: Seq<char>| k != normalized_key(from@) ==> self.gap_since(k) == s4.gap_since(k));
        self.dirty = true;
    }
}

/// The ids of `ids` above `last`, as a set.
pub open spec fn ids_above(ids: Seq<i64>, last: i64) -> Set<i64> {
    Set::new(|x: i64| ids.contains(x) && x > last)
}

/// Progress after loading committed ids per raw source key: each normalized key keeps
/// the largest id seen for it.
pub open spec fn load_committed_pairs(m: Map<Seq<char>, SourceSpec>, pairs: Seq<(String, i64)>) -> Map<
    Seq<char>,
    SourceSpec,
>
    decreases pairs.len(),
{
    if pairs.len() == 0 {
        m
    } else {
        let prev = load_committed_pairs(m, pairs.drop_last());
        let k = normalized_key(pairs.last().0@);
        let id = pairs.last().1;
        let own = if prev.contains_key(k) {
            prev[k]
        } else {
            fresh_source()
        };
        prev.insert(
            k,
            SourceSpec {
                last_committed: if id > own.last_committed {
                    id
                } else {
                    own.last_committed
                },
                pending: own.pending,
            },
        )
    }
}

/// Progress after loading pending ids per raw source key: ids above a key's committed id
/// join its pending ids.
pub open spec fn load_pending_pairs(m: Map<Seq<char>, SourceSpec>, pairs: Seq<(String, Vec<i64>)>) -> Map<
    Seq<char>,
    SourceSpec,
>
    decreases pairs.len(),
{
    if pairs.len() == 0 {
        m
    } else {
        let prev = load_pending_pairs(m, pairs.drop_last());
        let k = normalized_key(pairs.last().0@);
        let own = if prev.contains_key(k) {
            prev[k]
        } else {
            fresh_source()
        };
        prev.insert(
            k,
            SourceSpec {
                last_committed: own.last_committed,
                pending: own.pending.union(ids_above(pairs.last().1@, own.last_committed)),
            },
        )
    }
}

/// Every id of every list is below `i64::MAX`.
pub open spec fn ids_below_max(pairs: Seq<(String, Vec<i64>)>) -> bool {
    forall|i: int, j: int|
        0 <= i < pairs.len() && 0 <= j < pairs[i].1@.len() ==> #[trigger] pairs[i].1@[j] < i64::MAX
}

/// Adds the ids of `ids` above `st`'s committed id to its pending ids.
fn add_pending(st: &mut SourceState, ids: &Vec<i64>)
    requires
        source_wf(old(st)@),
        forall|j: int| 0 <= j < ids@.len() ==> #[trigger] ids@[j] < i64::MAX,
    ensures
        source_wf(final(st)@),
        final(st).last_committed == old(st).last_committed,
        final(st)@.pending =~= old(st)@.pending.union(ids_above(ids@, old(st).last_committed)),
{
    let ghost p0 = st@.pending;
    let mut j: usize = 0;
    while j < ids.len()
        invariant
            j <= ids@.len(),
            source_wf(st@),
            forall|k: int| 0 <= k < ids@.len() ==> #[trigger] ids@[k] < i64::MAX,
            st.last_committed == old(st).last_committed,
            st@.pending =~= p0.union(ids_above(ids@.take(j as int), st.last_committed)),
        decreases ids@.len() - j,
    {
        let x = ids[j];
        proof {
            assert forall|y: i64| ids_above(ids@.take(j + 1), st.last_committed).contains(y) <==> (
            ids_above(ids@.take(j as int), st.last_committed).contains(y) || (y == x && x
                > st.last_committed)) by {
                if ids@.take(j + 1).contains(y) && y != x {
                    let k = choose|k: int| 0 <= k < j + 1 && #[trigger] ids@.take(j + 1)[k] == y;
                    assert(ids@.take(j as int)[k] == y);
                }
                if ids@.take(j as int).contains(y) {
                    let k = choose|k: int| 0 <= k < j && #[trigger] ids@.take(j as int)[k] == y;
                    assert(ids@.take(j + 1)[k] == y);
                }
                if y == x {
                    assert(ids@.take(j + 1)[j as int] == x);
                }
            }
        }
        if x > st.last_committed {
            st.pending.insert(x);
        }
        j = j + 1;
    }
    assert(ids@.take(ids@.len() as int) =~= ids@);
}

impl StateStore {
    /// Loads committed ids as the app read them: per source (each normalized key keeping
    /// the largest id), or one id for the default progress.
    pub fn load_last_committed(&mut self, value: CommittedIds)
        requires
            old(self).wf(),
        ensures
            final(self).wf(),
            match value {
                CommittedIds::PerSource(pairs) => final(self).sources() =~= load_committed_pairs(
                    old(self).sources(),
                    pairs@,
                ) && final(self).default_source() == old(self).default_source(),
                CommittedIds::Single(id) => final(self).sources() == old(self).sources()
                    && final(self).default_source() == (SourceSpec {
                    last_committed: id,
                    pending: old(self).default_source().pending,
                }),
            },
            forall|k: Seq<char>| final(self).gap_since(k) == old(self).gap_since(k),
            final(self).spec_pending_limit() == old(self).spec_pending_limit(),
            final(self).spec_gap_timeout_ms() == old(self).spec_gap_timeout_ms(),
            final(self).spec_dirty() == old(self).spec_dirty(),
    {
        match value {
            CommittedIds::PerSource(pairs) => {
                let mut i: usize = 0;
                while i < pairs.len()
                    invariant
                        i <= pairs@.len(),
                        self.wf(),
                        self.sources() =~= load_committed_pairs(
                            old(self).sources(),
                            pairs@.take(i as int),
                        ),
                        self.default_source() == old(self).default_source(),
                        self.gap_runtime@ == old(self).gap_runtime@,
                        self.pending_limit == old(self).pending_limit,
                        self.gap_timeout_ms == old(self).gap_timeout_ms,
                        self.dirty == old(self).dirty,
                    decreases pairs@.len() - i,
                {
                    assert(pairs@.take(i + 1).drop_last() =~= pairs@.take(i as int));
                    let key = normalize_source_key(pairs[i].0.as_str());
                    let id = pairs[i].1;
                    let ghost before = *self;
                    let ti = self.entry_index(&key);
                    let ghost mid = *self;
                    proof {
                        mid.last_committed_by_source.lemma_view_keys();
                        assert(mid.last_committed_by_source@.contains_key(key@));
                    }
                    let mut st = self.last_committed_by_source.replace(ti, SourceState::new());
                    if id > st.last_committed {
                        st.last_committed = id;
                    }
                    self.put_back(Some(ti), st, Ghost(mid));
                    assert(self.sources() =~= before.sources().insert(
                        key@,
                        SourceSpec {
                            last_committed: if id > before.own_progress(Some(key@)).last_committed {
                                id
                            } else {
                                before.own_progress(Some(key@)).last_committed
                            },
                            pending: before.own_progress(Some(key@)).pending,
                        },
                    ));
                    i = i + 1;
                }
                assert(pairs@.take(pairs@.len() as int) =~= pairs@);
            },
            CommittedIds::Single(id) => {
                self.last_committed_default.last_committed = id;
            },
        }
    }

    /// Loads pending ids per source as the app read them: ids above a source's committed
    /// id join its pending ids.
    pub fn load_pending(&mut self, pairs: Vec<(String, Vec<i64>)>)
        requires
            old(self).wf(),
            ids_below_max(pairs@),
        ensures
            final(self).wf(),
            final(self).sources() =~= load_pending_pairs(old(self).sources(), pairs@),
            final(self).default_source() == old(self).default_source(),
            forall|k: Seq<char>| final(self).gap_since(k) == old(self).gap_since(k),
            final(self).spec_pending_limit() == old(self).spec_pending_limit(),
            final(self).spec_gap_timeout_ms() == old(self).spec_gap_timeout_ms(),
            final(self).spec_dirty() == old(self).spec_dirty(),
    {
        let mut i: usize = 0;
        while i < pairs.len()
            invariant
                i <= pairs@.len(),
                ids_below_max(pairs@),
                self.wf(),
                self.sources() =~= load_pending_pairs(old(self).sources(), pairs@.take(i as int)),
                self.default_source() == old(self).default_source(),
                self.gap_runtime@ == old(self).gap_runtime@,
                self.pending_limit == old(self).pending_limit,
                self.gap_timeout_ms == old(self).gap_timeout_ms,
                self.dirty == old(self).dirty,
            decreases pairs@.len() - i,
        {
            assert(pairs@.take(i + 1).drop_last() =~= pairs@.take(i as int));
            let key = normalize_source_key(pairs[i].0.as_str());
            let ghost before = *self;
            let ti = self.entry_index(&key);
            let ghost mid = *self;
            proof {
                mid.last_committed_by_source.lemma_view_keys();
                assert(mid.last_committed_by_source@.contains_key(key@));
                assert forall|j: int| 0 <= j < pairs@[i as int].1@.len() implies #[trigger] pairs@[i as int].1@[j]
                    < i64::MAX by {}
            }
            let mut st = self.last_committed_by_source.replace(ti, SourceState::new());
            add_pending(&mut st, &pairs[i].1);
            self.put_back(Some(ti), st, Ghost(mid));
            assert(self.sources() =~= before.sources().insert(
                key@,
                SourceSpec {
                    last_committed: before.own_progress(Some(key@)).last_committed,
                    pending: before.own_progress(Some(key@)).pending.union(
                        ids_above(pairs@[i as int].1@, before.own_progress(Some(key@)).last_committed),
                    ),
                },
            ));
            i = i + 1;
        }
        assert(pairs@.take(pairs@.len() as int) =~= pairs@);
    }

    /// Loads the default progress's pending ids: those above its committed id join them.
    pub fn load_pending_default(&mut self, ids: Vec<i64>)
        requires
            old(self).wf(),
            forall|j: int| 0 <= j < ids@.len() ==> #[trigger] ids@[j] < i64::MAX,
        ensures
            final(self).wf(),
            final(self).sources() == old(self).sources(),
            final(self).default_source() == (SourceSpec {
                last_committed: old(self).default_source().last_committed,
                pending: old(self).default_source().pending.union(
                    ids_above(ids@, old(self).default_source().last_committed),
                ),
            }),
            forall|k: Seq<char>| final(self).gap_since(k) == old(self).gap_since(k),
            final(self).spec_pending_limit() == old(self).spec_pending_limit(),
            final(self).spec_gap_timeout_ms() == old(self).spec_gap_timeout_ms(),
            final(self).spec_dirty() == old(self).spec_dirty(),
    {
        add_pending(&mut self.last_committed_default, &ids);
    }
}

/// A field of a progress file as read.
pub enum FileField<T> {
    /// The file has no such field.
    Missing,
    /// The field holds a value of another kind than the loader reads.
    Other,
    /// The field was read.
    Read(T),
    /// The field is of the kind the loader reads, but its entries cannot be read.
    Unreadable,
}

/// A progress file as read. Committed ids are an object of ids per source, or a number
/// for all; pending ids are an object of id lists per source, and the default pending ids
/// a list.
pub struct StateFile {
    pub last_committed_id: FileField<CommittedIds>,
    pub last_message_id: FileField<CommittedIds>,
    pub pending_ids: FileField<Vec<(String, Vec<i64>)>>,
    pub pending_ids_default: FileField<Vec<i64>>,
}

/// Why a progress file is refused.
pub enum StateLoadError {
    /// A field that is read holds entries of the wrong kind.
    Unreadable,
    /// A pending id is `i64::MAX`, past which no id can follow.
    IdOutOfRange,
}

/// The committed ids a committed-id field stands for: one that holds another kind of
/// value stands for 0.
pub open spec fn committed_value(f: FileField<CommittedIds>) -> CommittedIds {
    match f {
        FileField::Read(c) => c,
        _ => CommittedIds::Single(0),
    }
}

/// Progress per source and default progress after loading committed ids into an empty
/// store.
pub open spec fn committed_progress(c: CommittedIds) -> (Map<Seq<char>, SourceSpec>, SourceSpec) {
    match c {
        CommittedIds::PerSource(pairs) => (
            load_committed_pairs(Map::empty(), pairs@),
            fresh_source(),
        ),
        CommittedIds::Single(id) => (
            Map::empty(),
            SourceSpec { last_committed: id, pending: fresh_source().pending },
        ),
    }
}

/// Whether a committed-id field is used as committed ids.
pub open spec fn field_present(f: FileField<CommittedIds>) -> bool {
    f is Read || f is Other
}

/// The progress a readable file gives. With `last_committed_id`, the committed ids come
/// from it and the pending ids (when the fields are an object and a list) join above
/// them; without it, the older format's `last_message_id` gives the committed ids and
/// pending ids are not read.
pub open spec fn file_progress(file: StateFile) -> (Map<Seq<char>, SourceSpec>, SourceSpec) {
    if field_present(file.last_committed_id) {
        let (m, d) = committed_progress(committed_value(file.last_committed_id));
        let m2 = match file.pending_ids {
            FileField::Read(p) => load_pending_pairs(m, p@),
            _ => m,
        };
        let d2 = match file.pending_ids_default {
            FileField::Read(ids) => SourceSpec {
                last_committed: d.last_committed,
                pending: d.pending.union(ids_above(ids@, d.last_committed)),
            },
            _ => d,
        };
        (m2, d2)
    } else if field_present(file.last_message_id) {
        committed_progress(committed_value(file.last_message_id))
    } else {
        (Map::empty(), fresh_source())
    }
}

/// Whether every id of `ids` is below `i64::MAX`.
pub open spec fn all_below_max(ids: Seq<i64>) -> bool {
    forall|j: int| 0 <= j < ids.len() ==> #[trigger] ids[j] < i64::MAX
}

/// Why a file is refused, in the order the fields are read; `None` when it is not.
pub open spec fn state_file_error(file: StateFile) -> Option<StateLoadError> {
    if file.last_committed_id is Unreadable {
        Some(StateLoadError::Unreadable)
    } else if file.last_committed_id is Missing {
        if file.last_message_id is Unreadable {
            Some(StateLoadError::Unreadable)
        } else {
            None
        }
    } else if file.pending_ids is Unreadable {
        Some(StateLoadError::Unreadable)
    } else if (match file.pending_ids {
        FileField::Read(p) => !ids_below_max(p@),
        _ => false,
    }) {
        Some(StateLoadError::IdOutOfRange)
    } else if file.pending_ids_default is Unreadable {
        Some(StateLoadError::Unreadable)
    } else if (match file.pending_ids_default {
        FileField::Read(ids) => !all_below_max(ids@),
        _ => false,
    }) {
        Some(StateLoadError::IdOutOfRange)
    } else {
        None
    }
}

/// Whether every id of `ids` is below `i64::MAX`.
fn ids_fit(ids: &Vec<i64>) -> (r: bool)
    ensures
        r == all_below_max(ids@),
{
    let mut j: usize = 0;
    while j < ids.len()
        invariant
            j <= ids@.len(),
            forall|k: int| 0 <= k < j ==> #[trigger] ids@[k] < i64::MAX,
        decreases ids@.len() - j,
    {
        if ids[j] == i64::MAX {
            return false;
        }
        j = j + 1;
    }
    true
}

/// Whether every pending id of `pairs` is below `i64::MAX`.
fn pairs_fit(pairs: &Vec<(String, Vec<i64>)>) -> (r: bool)
    ensures
        r == ids_below_max(pairs@),
{
    let mut i: usize = 0;
    while i < pairs.len()
        invariant
            i <= pairs@.len(),
            forall|a: int, j: int|
                0 <= a < i && 0 <= j < pairs@[a].1@.len() ==> #[trigger] pairs@[a].1@[j]
                    < i64::MAX,
        decreases pairs@.len() - i,
    {
        if !ids_fit(&pairs[i].1) {
            assert(!all_below_max(pairs@[i as int].1@));
            return false;
        }
        i = i + 1;
    }
    true
}

impl StateStore {
    /// A store read from a progress file, or why the file is refused, as
    /// `state_file_error` and `file_progress` state; nothing is left to save.
    pub fn from_file(file: StateFile) -> (r: Result<StateStore, StateLoadError>)
        ensures
            match r {
                Ok(s) => {
                    &&& state_file_error(file) is None
                    &&& s.wf()
                    &&& s.sources() == file_progress(file).0
                    &&& s.default_source() == file_progress(file).1
                    &&& forall|rk: Seq<char>| s.gap_since(rk) is None
                    &&& s.spec_pending_limit() == 2000
                    &&& s.spec_gap_timeout_ms() == 300_000
                    &&& !s.spec_dirty()
                },
                Err(e) => state_file_error(file) == Some(e),
            },
    {
        let ghost f = file;
        let mut store = StateStore::new();
        let StateFile { last_committed_id, last_message_id, pending_ids, pending_ids_default } =
            file;
        let committed = match last_committed_id {
            FileField::Unreadable => {
                return Err(StateLoadError::Unreadable);
            },
            FileField::Missing => {
                match last_message_id {
                    FileField::Unreadable => {
                        return Err(StateLoadError::Unreadable);
                    },
                    FileField::Read(c) => {
                        store.load_last_committed(c);
                    },
                    FileField::Other => {
                        store.load_last_committed(CommittedIds::Single(0));
                    },
                    FileField::Missing => {},
                }
                assert(store.sources() =~= file_progress(f).0);
                return Ok(store);
            },
            FileField::Read(c) => c,
            FileField::Other => CommittedIds::Single(0),
        };
        let pending = match pending_ids {
            FileField::Unreadable => {
                return Err(StateLoadError::Unreadable);
            },
            FileField::Read(p) => {
                if !pairs_fit(&p) {
                    return Err(StateLoadError::IdOutOfRange);
                }
                Some(p)
            },
            _ => None,
        };
        let pending_default = match pending_ids_default {
            FileField::Unreadable => {
                return Err(StateLoadError::Unreadable);
            },
            FileField::Read(ids) => {
                if !ids_fit(&ids) {
                    return Err(StateLoadError::IdOutOfRange);
                }
                Some(ids)
            },
            _ => None,
        };
        store.load_last_committed(committed);
        match pending {
            Some(p) => store.load_pending(p),
            None => {},
        }
        match pending_default {
            Some(ids) => store.load_pending_default(ids),
            None => {},
        }
        assert(store.sources() =~= file_progress(f).0);
        Ok(store)
    }
}


/// The ids of `s` in increasing order.
fn sorted_ids(s: &BTreeSet<i64>) -> (r: Vec<i64>)
    requires
        s@.finite(),
    ensures
        r@.to_set() == s@,
        forall|i: int, j: int| 0 <= i < j < r@.len() ==> r@[i] < r@[j],
{
    let mut rest = s.clone();
    let mut r: Vec<i64> = Vec::new();
    loop
        invariant
            rest@.finite(),
            rest@.subset_of(s@),
            forall|x: i64| #[trigger] s@.contains(x) ==> (rest@.contains(x) <==> !r@.contains(x)),
            forall|x: i64| r@.contains(x) ==> s@.contains(x),
            forall|i: int, j: int| 0 <= i < j < r@.len() ==> r@[i] < r@[j],
            forall|i: int, x: i64| 0 <= i < r@.len() && #[trigger] rest@.contains(x) ==> #[trigger] r@[i] < x,
        ensures
            rest@ == Set::<i64>::empty(),
            forall|x: i64| #[trigger] s@.contains(x) ==> r@.contains(x),
            forall|x: i64| r@.contains(x) ==> s@.contains(x),
            forall|i: int, j: int| 0 <= i < j < r@.len() ==> r@[i] < r@[j],
        decreases rest@.len(),
    {
        match set_first(&rest) {
            Some(x) => {
                let ghost before = r@;
                rest.remove(&x);
                r.push(x);
                proof {
                    assert forall|y: i64| r@.contains(y) implies s@.contains(y) by {
                        if y != x {
                            let k = choose|k: int| 0 <= k < r@.len() && r@[k] == y;
                            assert(before[k] == y);
                        }
                    }
                    assert forall|y: i64| #[trigger] s@.contains(y) implies (rest@.contains(y)
                        <==> !r@.contains(y)) by {
                        if before.contains(y) {
                            let k = choose|k: int| 0 <= k < before.len() && before[k] == y;
                            assert(r@[k] == y);
                        }
                        if r@.contains(y) && y != x {
                            let k = choose|k: int| 0 <= k < r@.len() && r@[k] == y;
                            assert(before[k] == y);
                        }
                        if y == x {
                            assert(r@[before.len() as int] == x);
                        }
                    }
                }
            },
            None => {
                break ;
            },
        }
    }
    assert(r@.to_set() =~= s@);
    r
}

impl StateStore {
    proof fn lemma_sources(&self)
        requires
            self.wf(),
        ensures
            forall|i: int|
                0 <= i < self.last_committed_by_source.spec_len() ==> #[trigger] self.sources().contains_key(
                    self.last_committed_by_source.key_at(i),
                ) && self.sources()[self.last_committed_by_source.key_at(i)]
                    == self.last_committed_by_source.val_at(i)@,
            forall|k: Seq<char>| #[trigger]
                self.sources().contains_key(k) ==> exists|i: int|
                    0 <= i < self.last_committed_by_source.spec_len()
                        && self.last_committed_by_source.key_at(i) == k,
            self.sources().dom().len() == self.last_committed_by_source.spec_len(),
            forall|i: int, j: int|
                0 <= i < j < self.last_committed_by_source.spec_len()
                    ==> self.last_committed_by_source.key_at(i)
                    != self.last_committed_by_source.key_at(j),
    {
        self.last_committed_by_source.lemma_view_keys();
        self.last_committed_by_source.lemma_len();
        assert(self.sources().dom() =~= self.last_committed_by_source@.dom());
    }

    /// The committed ids to save: one per source when any source has its own entry,
    /// else the default one.
    pub fn committed_ids(&self) -> (r: CommittedIds)
        requires
            self.wf(),
        ensures
            match r {
                CommittedIds::Single(id) => self.sources().dom() == Set::<Seq<char>>::empty()
                    && id == self.default_source().last_committed,
                CommittedIds::PerSource(pairs) => {
                    &&& self.sources().dom() != Set::<Seq<char>>::empty()
                    &&& pairs@.len() == self.sources().dom().len()
                    &&& forall|i: int|
                        0 <= i < pairs@.len() ==> #[trigger] self.sources().contains_key(
                            pairs@[i].0@,
                        ) && pairs@[i].1 == self.sources()[pairs@[i].0@].last_committed
                    &&& forall|k: Seq<char>| #[trigger]
                        self.sources().contains_key(k) ==> exists|i: int|
                            0 <= i < pairs@.len() && pairs@[i].0@ == k
                    &&& forall|i: int, j: int|
                        0 <= i < j < pairs@.len() ==> pairs@[i].0@ != pairs@[j].0@
                },
            },
    {
        let n = self.last_committed_by_source.len();
        proof {
            self.lemma_sources();
        }
        if n == 0 {
            assert(self.sources().dom() =~= Set::<Seq<char>>::empty());
            return CommittedIds::Single(self.last_committed_default.last_committed);
        }
        let mut pairs: Vec<(String, i64)> = Vec::new();
        let mut i: usize = 0;
        while i < n
            invariant
                self.wf(),
                n == self.last_committed_by_source.spec_len(),
                i <= n,
                pairs@.len() == i,
                forall|j: int|
                    0 <= j < i ==> pairs@[j].0@ == self.last_committed_by_source.key_at(j)
                        && pairs@[j].1 == self.last_committed_by_source.val_at(j).last_committed,
            decreases n - i,
        {
            let k = self.last_committed_by_source.key(i).clone();
            let v = self.last_committed_by_source.val(i).last_committed;
            pairs.push((k, v));
            i = i + 1;
        }
        proof {
            self.lemma_sources();
            let lc = self.last_committed_by_source;
            assert forall|j: int| 0 <= j < pairs@.len() implies #[trigger] self.sources().contains_key(
                pairs@[j].0@,
            ) && pairs@[j].1 == self.sources()[pairs@[j].0@].last_committed by {
                assert(pairs@[j].0@ == lc.key_at(j));
                assert(self.sources().contains_key(lc.key_at(j)));
            }
            assert forall|a: int, b: int| 0 <= a < b < pairs@.len() implies pairs@[a].0@
                != pairs@[b].0@ by {
                assert(pairs@[a].0@ == lc.key_at(a));
                assert(pairs@[b].0@ == lc.key_at(b));
            }
            assert(self.sources().dom().contains(pairs@[0].0@));
            assert forall|k: Seq<char>| #[trigger] self.sources().contains_key(k) implies exists|j: int|
                0 <= j < pairs@.len() && pairs@[j].0@ == k by {
                let j = choose|j: int|
                    0 <= j < self.last_committed_by_source.spec_len()
                        && self.last_committed_by_source.key_at(j) == k;
                assert(pairs@[j].0@ == k);
            }
        }
        CommittedIds::PerSource(pairs)
    }

    /// The pending ids to save per source, each list increasing.
    pub fn pending_ids(&self) -> (r: Vec<(String, Vec<i64>)>)
        requires
            self.wf(),
        ensures
            r@.len() == self.sources().dom().len(),
            forall|i: int|
                0 <= i < r@.len() ==> #[trigger] self.sources().contains_key(r@[i].0@)
                    && r@[i].1@.to_set() =~= self.sources()[r@[i].0@].pending,
            forall|i: int, a: int, b: int|
                0 <= i < r@.len() && 0 <= a < b < r@[i].1@.len() ==> #[trigger] r@[i].1@[a]
                    < #[trigger] r@[i].1@[b],
            forall|k: Seq<char>| #[trigger]
                self.sources().contains_key(k) ==> exists|i: int| 0 <= i < r@.len() && r@[i].0@ == k,
            forall|i: int, j: int| 0 <= i < j < r@.len() ==> r@[i].0@ != r@[j].0@,
    {
        let n = self.last_committed_by_source.len();
        let mut out: Vec<(String, Vec<i64>)> = Vec::new();
        let mut i: usize = 0;
        while i < n
            invariant
                self.wf(),
                n == self.last_committed_by_source.spec_len(),
                i <= n,
                out@.len() == i,
                forall|j: int|
                    0 <= j < i ==> out@[j].0@ == self.last_committed_by_source.key_at(j)
                        && out@[j].1@.to_set() == self.last_committed_by_source.val_at(j)@.pending,
                forall|j: int, a: int, b: int|
                    0 <= j < i && 0 <= a < b < out@[j].1@.len() ==> #[trigger] out@[j].1@[a]
                        < #[trigger] out@[j].1@[b],
            decreases n - i,
        {
            let k = self.last_committed_by_source.key(i).clone();
            proof {
                self.last_committed_by_source.lemma_view_keys();
                assert(self.last_committed_by_source@.contains_key(
                    self.last_committed_by_source.key_at(i as int),
                ));
            }
            let ids = sorted_ids(&self.last_committed_by_source.val(i).pending);
            out.push((k, ids));
            i = i + 1;
        }
        proof {
            self.lemma_sources();
            let lc = self.last_committed_by_source;
            assert forall|j: int| 0 <= j < out@.len() implies #[trigger] self.sources().contains_key(
                out@[j].0@,
            ) && out@[j].1@.to_set() =~= self.sources()[out@[j].0@].pending by {
                assert(out@[j].0@ == lc.key_at(j));
                assert(self.sources().contains_key(lc.key_at(j)));
                assert(self.sources()[lc.key_at(j)] == lc.val_at(j)@);
                assert(out@[j].1@.to_set() == lc.val_at(j)@.pending);
            }
            assert forall|a: int, b: int| 0 <= a < b < out@.len() implies out@[a].0@
                != out@[b].0@ by {
                assert(out@[a].0@ == lc.key_at(a));
                assert(out@[b].0@ == lc.key_at(b));
            }
            assert forall|k: Seq<char>| #[trigger] self.sources().contains_key(k) implies exists|j: int|
                0 <= j < out@.len() && out@[j].0@ == k by {
                let j = choose|j: int|
                    0 <= j < self.last_committed_by_source.spec_len()
                        && self.last_committed_by_source.key_at(j) == k;
                assert(out@[j].0@ == k);
            }
            assert(out@.len() == self.sources().dom().len());
        }
        out
    }

    /// The default progress's pending ids to save, increasing.
    pub fn pending_ids_default(&self) -> (r: Vec<i64>)
        requires
            self.wf(),
        ensures
            r@.to_set() == self.default_source().pending,
            forall|i: int, j: int| 0 <= i < j < r@.len() ==> r@[i] < r@[j],
    {
        sorted_ids(&self.last_committed_default.pending)
    }
}

/// The normalized key of an optional raw source key.
pub open spec fn key_view(source_key: Option<&str>) -> Option<Seq<char>> {
    match source_key {
        Some(k) => Some(normalized_key(k@)),
        None => None,
    }
}

/// Settling a source's progress loses no processed message, and never lowers the
/// committed id.
proof fn lemma_advanced_keeps(s: SourceSpec, gap: Option<u64>, timeout: u64, now: u64, x: i64)
    requires
        x <= s.last_committed || s.pending.contains(x),
    ensures
        x <= advanced(s, gap, timeout, now).0.last_committed || advanced(s, gap, timeout, now).0.pending.contains(x),
        advanced(s, gap, timeout, now).0.last_committed >= s.last_committed,
    decreases s.pending.len(),
{
    if !s.pending.finite() || s.last_committed == i64::MAX {
    } else if s.pending.contains((s.last_committed + 1) as i64) {
        let n = (s.last_committed + 1) as i64;
        let s2 = SourceSpec { last_committed: n, pending: s.pending.remove(n) };
        assert(s2.pending.len() < s.pending.len());
        lemma_advanced_keeps(s2, None, timeout, now, x);
    } else if s.pending.len() == 0 {
    } else {
        let m = set_min(s.pending);
        if !s.pending.contains(m) {
        } else if m <= s.last_committed {
            let s2 = SourceSpec { last_committed: s.last_committed, pending: s.pending.remove(m) };
            assert(s2.pending.len() < s.pending.len());
            lemma_advanced_keeps(s2, gap, timeout, now, x);
        } else {
            let since = match gap {
                Some(t) => t,
                None => now,
            };
            if elapsed_ms(since, now) >= timeout {
                let s2 = SourceSpec { last_committed: m, pending: s.pending.remove(m) };
                assert(s2.pending.len() < s.pending.len());
                lemma_advanced_keeps(s2, None, timeout, now, x);
            }
        }
    }
}

/// A finite non-empty set of ids has a smallest element.
proof fn lemma_set_min_exists(s: Set<i64>)
    requires
        s.finite(),
        s.len() > 0,
    ensures
        s.contains(set_min(s)),
        forall|y: i64| s.contains(y) ==> set_min(s) <= y,
    decreases s.len(),
{
    let x = s.choose();
    assert(s.contains(x));
    let rest = s.remove(x);
    if rest.len() == 0 {
        assert forall|y: i64| s.contains(y) implies x <= y by {
            if y != x {
                assert(rest.contains(y));
            }
        }
        lemma_min(s, x);
    } else {
        lemma_set_min_exists(rest);
        let m = set_min(rest);
        let lo = if x < m {
            x
        } else {
            m
        };
        assert forall|y: i64| s.contains(y) implies lo <= y by {
            if y != x {
                assert(rest.contains(y));
            }
        }
        lemma_min(s, lo);
    }
}

/// A source whose pending ids all lie above its committed id, as recording keeps them.
pub open spec fn pending_above(s: SourceSpec) -> bool {
    forall|y: i64| #[trigger] s.pending.contains(y) ==> y > s.last_committed
}

/// Whatever the clock and the limits, a message that a source records as processed
/// counts as processed afterwards, every message that counted before still counts, and
/// the committed id does not fall.
pub proof fn law_recorded_stays_processed(
    s: SourceSpec,
    gap: Option<u64>,
    id: i64,
    limit: usize,
    timeout: u64,
    now: u64,
    x: i64,
)
    requires
        source_wf(s),
        pending_above(s),
        id < i64::MAX,
        x == id || x <= s.last_committed || s.pending.contains(x),
    ensures
        ({
            let r = after_mark(s, gap, id, limit, timeout, now).0;
            &&& x <= r.last_committed || r.pending.contains(x)
            &&& r.last_committed >= s.last_committed
        }),
{
    if id <= s.last_committed {
    } else {
        let p = s.pending.insert(id);
        if p.len() > limit {
            lemma_set_min_exists(p);
            let m = set_min(p);
            assert(m > s.last_committed) by {
                if m != id {
                    assert(s.pending.contains(m));
                }
            }
            let s2 = SourceSpec { last_committed: before_id(m), pending: p };
            assert(s2.last_committed >= s.last_committed);
            lemma_advanced_keeps(s2, None, timeout, now, x);
        } else {
            lemma_advanced_keeps(SourceSpec { last_committed: s.last_committed, pending: p }, gap, timeout, now, x);
        }
    }
}

impl StateStore {
    /// Every progress the store holds has finitely many pending ids below `i64::MAX`.
    pub proof fn lemma_progress_wf(&self, key: Option<Seq<char>>)
        requires
            self.wf(),
        ensures
            source_wf(self.own_progress(key)),
    {
        match key {
            Some(k) => {
                if self.sources().contains_key(k) {
                    assert(self.last_committed_by_source@.contains_key(k));
                } else {
                    assert(fresh_source().pending =~= Set::<i64>::empty());
                }
            },
            None => {},
        }
    }
}

/// A message recorded as processed under a key counts as processed under that key
/// afterwards, whenever the key's pending ids lay above its committed id.
pub proof fn law_marked_message_is_processed(
    old: StateStore,
    new: StateStore,
    key: Option<Seq<char>>,
    id: i64,
    timeout: u64,
    now: u64,
)
    requires
        old.wf(),
        id < i64::MAX,
        pending_above(old.own_progress(key)),
        mark_effect(old, new, key, id, timeout, now),
    ensures
        new.processed(key, id),
{
    old.lemma_progress_wf(key);
    let st = old.own_progress(key);
    law_recorded_stays_processed(st, old.gap_since(runtime_key(key)), id, old.spec_pending_limit(), timeout, now, id);
}

/// Moving a source's progress to another key loses nothing: a message processed under
/// the old key, or under the new key's own entry, is processed under the new key after.
pub proof fn law_migration_keeps_processed(old: StateStore, new: StateStore, f: Seq<char>, t: Seq<char>, x: i64)
    requires
        migrate_effect(old, new, f, t),
        f != t,
        old.sources().contains_key(f),
        old.processed(Some(f), x) || (old.sources().contains_key(t) && old.processed(Some(t), x)),
    ensures
        new.processed(Some(t), x),
{
    let fs = old.sources()[f];
    let ts = old.own_progress(Some(t));
    let m = migrated_target(fs, ts);
    assert(new.sources()[t] == m);
    if x <= m.last_committed {
    } else if fs.pending.contains(x) && x > m.last_committed {
        assert(fs.pending.filter(|y: i64| y > m.last_committed).contains(x));
    }
}

} // verus!
