//! Text messages held back for a short window, per source, so that they can be joined
//! to an album that follows them.
use crate::model::{MessageSpec, MessageView, TextEntity};
use crate::table::StrMap;
use crate::text::{trim_chars, trim_ws};
use crate::utf16::{chars_utf8_prefix_len, str_chars, string_from_chars, utf8_units};
use vstd::prelude::*;

verus! {

/// A held-back message and when it expires (in milliseconds).
pub struct TextMergeCache {
    pub message: MessageView,
    pub expires_at: u64,
}

/// A held-back message as a mathematical value.
pub struct CacheSpec {
    pub message: MessageSpec,
    pub expires_at: u64,
}

/// The view of a held-back message.
pub open spec fn cache_view(c: TextMergeCache) -> CacheSpec {
    CacheSpec { message: c.message@, expires_at: c.expires_at }
}

/// Held-back texts per source. A window of 0 turns holding back off.
pub struct TextMergeManager {
    cache: StrMap<TextMergeCache>,
    merge_window_ms: u64,
    min_len: usize,
    max_id_gap: usize,
}

/// Whether a text is long enough to hold back: its trimmed form is not empty and has at
/// least `min_len` UTF-8 bytes.
pub open spec fn long_enough(text: Seq<char>, min_len: usize) -> bool {
    trim_ws(text).len() > 0 && utf8_units(trim_ws(text)) >= min_len
}

/// The message as held back: not marked as an edit.
pub open spec fn as_held(m: MessageSpec) -> MessageSpec {
    MessageSpec { is_edit: false, ..m }
}

/// What merging the held-back text of `k` into an album starting at `min_album_id`
/// gives at `now`, and the held-back texts left: nothing when holding back is off or
/// `k` has none; an expired text is dropped; a text is taken when it lies 1 to
/// `max_id_gap` ids before the album and is long enough, trimmed, with its entities.
pub open spec fn merge_outcome(
    e: Map<Seq<char>, CacheSpec>,
    k: Seq<char>,
    min_album_id: i64,
    now: u64,
    window: u64,
    max_id_gap: usize,
    min_len: usize,
) -> (Option<(Seq<char>, Seq<TextEntity>)>, Map<Seq<char>, CacheSpec>) {
    if window == 0 || !e.contains_key(k) {
        (None, e)
    } else if now > e[k].expires_at {
        (None, e.remove(k))
    } else {
        let gap = min_album_id - e[k].message.id;
        if gap <= 0 || gap > max_id_gap || !long_enough(e[k].message.text, min_len) {
            (None, e)
        } else {
            (Some((trim_ws(e[k].message.text), e[k].message.entities)), e.remove(k))
        }
    }
}

/// A text held back for a source is joined to the album that follows it: within the
/// window, when the album starts 1 to `max_id_gap` ids later and the text is long
/// enough, merging gives the trimmed text and its entities, and forgets it.
pub proof fn law_held_text_joins_album(
    e: Map<Seq<char>, CacheSpec>,
    k: Seq<char>,
    m: MessageSpec,
    cached_at: u64,
    min_album_id: i64,
    now: u64,
    window: u64,
    max_id_gap: usize,
    min_len: usize,
)
    requires
        window > 0,
        cached_at + window <= u64::MAX,
        now <= cached_at + window,
        0 < min_album_id - m.id <= max_id_gap,
        long_enough(m.text, min_len),
    ensures
        merge_outcome(
            e.insert(k, CacheSpec { message: as_held(m), expires_at: (cached_at + window) as u64 }),
            k,
            min_album_id,
            now,
            window,
            max_id_gap,
            min_len,
        ) == (
            Some((trim_ws(m.text), m.entities)),
            e.insert(k, CacheSpec { message: as_held(m), expires_at: (cached_at + window) as u64 }).remove(k),
        ),
{
}

impl TextMergeManager {
    pub closed spec fn wf(&self) -> bool {
        self.cache.wf()
    }

    /// The held-back messages per source.
    pub closed spec fn entries(&self) -> Map<Seq<char>, CacheSpec> {
        self.cache@.map_values(
            |c: TextMergeCache| CacheSpec { message: c.message@, expires_at: c.expires_at },
        )
    }

    pub closed spec fn spec_window(&self) -> u64 {
        self.merge_window_ms
    }

    pub closed spec fn spec_min_len(&self) -> usize {
        self.min_len
    }

    pub closed spec fn spec_max_id_gap(&self) -> usize {
        self.max_id_gap
    }

    /// Holds texts back for `merge_window_ms` milliseconds (0: never), when they have at
    /// least `min_len` bytes, for albums at most `max_id_gap` ids later.
    pub fn new(merge_window_ms: u64, min_len: usize, max_id_gap: usize) -> (r: Self)
        ensures
            r.wf(),
            r.entries() == Map::<Seq<char>, CacheSpec>::empty(),
            r.spec_window() == merge_window_ms,
            r.spec_min_len() == min_len,
            r.spec_max_id_gap() == max_id_gap,
    {
        let r = TextMergeManager { cache: StrMap::new(), merge_window_ms, min_len, max_id_gap };
        assert(r.entries() =~= Map::<Seq<char>, CacheSpec>::empty());
        r
    }

    /// How long texts are held back, in milliseconds (0: never).
    pub fn window_ms(&self) -> (r: u64)
        ensures
            r == self.spec_window(),
    {
        self.merge_window_ms
    }

    /// Nothing held back, holding back off.
    pub fn default() -> (r: Self)
        ensures
            r.wf(),
            r.entries() == Map::<Seq<char>, CacheSpec>::empty(),
            r.spec_window() == 0,
            r.spec_min_len() == 0,
            r.spec_max_id_gap() == 5,
    {
        TextMergeManager::new(0, 0, 5)
    }

    /// The text and entities of the held-back message of `source_key`, taken out of the
    /// cache, when it is still valid at `now`, at most `max_id_gap` ids before
    /// `min_album_id`, and long enough; an expired one is dropped.
    pub fn try_merge_for_album(&mut self, source_key: &str, min_album_id: i64, now: u64) -> (r:
        Option<(String, Vec<TextEntity>)>)
        requires
            old(self).wf(),
            old(self).entries().contains_key(source_key@) ==> i64::MIN <= min_album_id - old(
                self,
            ).entries()[source_key@].message.id <= i64::MAX,
        ensures
            final(self).wf(),
            final(self).spec_window() == old(self).spec_window(),
            final(self).spec_min_len() == old(self).spec_min_len(),
            final(self).spec_max_id_gap() == old(self).spec_max_id_gap(),
            ({
                let (out, rest) = merge_outcome(
                    old(self).entries(),
                    source_key@,
                    min_album_id,
                    now,
                    old(self).spec_window(),
                    old(self).spec_max_id_gap(),
                    old(self).spec_min_len(),
                );
                &&& final(self).entries() == rest
                &&& match r {
                    Some((t, es)) => out == Some((t@, es@)),
                    None => out is None,
                }
            }),
    {
        let ghost e = self.entries();
        if self.merge_window_ms == 0 {
            return None;
        }
        let i = match self.cache.find(source_key) {
            Some(i) => i,
            None => {
                return None;
            },
        };
        let expires = self.cache.val(i).expires_at;
        if now > expires {
            self.cache.remove_at(i);
            assert(self.entries() =~= e.remove(source_key@));
            return None;
        }
        let id = self.cache.val(i).message.id;
        let gap = min_album_id - id;
        if gap <= 0 || (gap as u64) > (self.max_id_gap as u64) {
            return None;
        }
        let t = trim_chars(self.cache.val(i).message.text.as_str());
        let ts = string_from_chars(t.as_slice());
        let tc = str_chars(ts.as_str());
        let blen = chars_utf8_prefix_len(tc.as_slice(), tc.len());
        assert(tc@.take(tc@.len() as int) =~= tc@);
        if tc.len() == 0 || blen < self.min_len {
            return None;
        }
        let entities = crate::model::copy_entities(self.cache.val(i).message.entities.as_slice());
        self.cache.remove_at(i);
        assert(self.entries() =~= e.remove(source_key@));
        Some((ts, entities))
    }

    /// Holds back `message` of `source_key` until `now` plus the window, when holding
    /// back is on and its text is long enough; returns whether it was held back.
    pub fn cache_text(&mut self, source_key: &str, message: &MessageView, now: u64) -> (r: bool)
        requires
            old(self).wf(),
            now + old(self).spec_window() <= u64::MAX,
        ensures
            final(self).wf(),
            final(self).spec_window() == old(self).spec_window(),
            final(self).spec_min_len() == old(self).spec_min_len(),
            final(self).spec_max_id_gap() == old(self).spec_max_id_gap(),
            r == (old(self).spec_window() > 0 && long_enough(message@.text, old(self).spec_min_len())),
            r ==> final(self).entries() == old(self).entries().insert(
                source_key@,
                CacheSpec {
                    message: as_held(message@),
                    expires_at: (now + old(self).spec_window()) as u64,
                },
            ),
            !r ==> final(self).entries() == old(self).entries(),
    {
        if self.merge_window_ms == 0 {
            return false;
        }
        if !self.long_enough(message.text.as_str()) {
            return false;
        }
        let mut held = message.duplicate();
        held.is_edit = false;
        let entry = TextMergeCache { message: held, expires_at: now + self.merge_window_ms };
        let ghost ev = CacheSpec { message: as_held(message@), expires_at: (now + self.merge_window_ms) as u64 };
        match self.cache.find(source_key) {
            Some(i) => {
                self.cache.replace(i, entry);
            },
            None => {
                let key = string_from_chars(str_chars(source_key).as_slice());
                self.cache.push(key, entry);
            },
        }
        assert(self.entries() =~= old(self).entries().insert(source_key@, ev));
        true
    }

    /// Whether `text` is long enough, as `long_enough` states.
    fn long_enough(&self, text: &str) -> (r: bool)
        ensures
            r == long_enough(text@, self.min_len),
    {
        let t = trim_chars(text);
        let ts = string_from_chars(t.as_slice());
        let tc = str_chars(ts.as_str());
        let blen = chars_utf8_prefix_len(tc.as_slice(), tc.len());
        assert(tc@.take(tc@.len() as int) =~= tc@);
        tc.len() > 0 && blen >= self.min_len
    }

    /// Replaces the held-back message of `source_key` by its edit `message` (same id,
    /// text long enough) and restarts its window; returns whether it did.
    pub fn update_cached_text(&mut self, source_key: &str, message: &MessageView, now: u64) -> (r:
        bool)
        requires
            old(self).wf(),
            now + old(self).spec_window() <= u64::MAX,
        ensures
            final(self).wf(),
            final(self).spec_window() == old(self).spec_window(),
            final(self).spec_min_len() == old(self).spec_min_len(),
            final(self).spec_max_id_gap() == old(self).spec_max_id_gap(),
            r == (old(self).spec_window() > 0 && old(self).entries().contains_key(source_key@)
                && old(self).entries()[source_key@].message.id == message@.id && long_enough(
                message@.text,
                old(self).spec_min_len(),
            )),
            r ==> final(self).entries() == old(self).entries().insert(
                source_key@,
                CacheSpec {
                    message: as_held(message@),
                    expires_at: (now + old(self).spec_window()) as u64,
                },
            ),
            !r ==> final(self).entries() == old(self).entries(),
    {
        if self.merge_window_ms == 0 {
            return false;
        }
        let i = match self.cache.find(source_key) {
            Some(i) => i,
            None => {
                return false;
            },
        };
        if self.cache.val(i).message.id != message.id {
            return false;
        }
        if !self.long_enough(message.text.as_str()) {
            return false;
        }
        let mut held = message.duplicate();
        held.is_edit = false;
        let entry = TextMergeCache { message: held, expires_at: now + self.merge_window_ms };
        let ghost ev = CacheSpec { message: as_held(message@), expires_at: (now + self.merge_window_ms) as u64 };
        self.cache.replace(i, entry);
        assert(self.entries() =~= old(self).entries().insert(source_key@, ev));
        true
    }

    /// Takes the held-back message of `source_key` out.
    pub fn remove_message(&mut self, source_key: &str) -> (r: Option<MessageView>)
        requires
            old(self).wf(),
        ensures
            final(self).wf(),
            final(self).spec_window() == old(self).spec_window(),
            final(self).spec_min_len() == old(self).spec_min_len(),
            final(self).spec_max_id_gap() == old(self).spec_max_id_gap(),
            final(self).entries() == old(self).entries().remove(source_key@),
            match r {
                Some(m) => old(self).entries().contains_key(source_key@) && m@ == old(
                    self,
                ).entries()[source_key@].message,
                None => !old(self).entries().contains_key(source_key@),
            },
    {
        match self.cache.find(source_key) {
            Some(i) => {
                let c = self.cache.remove_at(i);
                assert(self.entries() =~= old(self).entries().remove(source_key@));
                Some(c.message)
            },
            None => {
                assert(self.entries() =~= old(self).entries().remove(source_key@));
                None
            },
        }
    }

    /// Takes the held-back message of `source_key` out when it expired before `now`.
    pub fn remove_message_if_expired(&mut self, source_key: &str, now: u64) -> (r: Option<
        MessageView,
    >)
        requires
            old(self).wf(),
        ensures
            final(self).wf(),
            final(self).spec_window() == old(self).spec_window(),
            final(self).spec_min_len() == old(self).spec_min_len(),
            final(self).spec_max_id_gap() == old(self).spec_max_id_gap(),
            ({
                let e = old(self).entries();
                let k = source_key@;
                if old(self).spec_window() > 0 && e.contains_key(k) && e[k].expires_at < now {
                    r matches Some(m) && m@ == e[k].message && final(self).entries() == e.remove(k)
                } else {
                    r is None && final(self).entries() == e
                }
            }),
    {
        if self.merge_window_ms == 0 {
            return None;
        }
        match self.cache.find(source_key) {
            Some(i) => {
                if self.cache.val(i).expires_at < now {
                    let c = self.cache.remove_at(i);
                    assert(self.entries() =~= old(self).entries().remove(source_key@));
                    Some(c.message)
                } else {
                    None
                }
            },
            None => None,
        }
    }

    /// Sets the expiry of the held-back message of `source_key` to `now + duration_ms`.
    pub fn extend_expiration(&mut self, source_key: &str, duration_ms: u64, now: u64)
        requires
            old(self).wf(),
            now + duration_ms <= u64::MAX,
        ensures
            final(self).wf(),
            final(self).spec_window() == old(self).spec_window(),
            final(self).spec_min_len() == old(self).spec_min_len(),
            final(self).spec_max_id_gap() == old(self).spec_max_id_gap(),
            ({
                let e = old(self).entries();
                let k = source_key@;
                if e.contains_key(k) {
                    final(self).entries() == e.insert(
                        k,
                        CacheSpec { expires_at: (now + duration_ms) as u64, ..e[k] },
                    )
                } else {
                    final(self).entries() == e
                }
            }),
    {
        match self.cache.find(source_key) {
            Some(i) => {
                let mut c = self.cache.replace(
                    i,
                    TextMergeCache {
                        message: MessageView {
                            id: 0,
                            chat_id: 0,
                            text: String::new(),
                            entities: Vec::new(),
                            media: None,
                            album_id: None,
                            is_edit: false,
                        },
                        expires_at: 0,
                    },
                );
                c.expires_at = now + duration_ms;
                let ghost cv = CacheSpec { message: c.message@, expires_at: c.expires_at };
                self.cache.replace(i, c);
                assert(self.entries() =~= old(self).entries().insert(source_key@, cv));
            },
            None => {},
        }
    }

    /// Sets the expiry of the held-back message of `source_key` to `now + duration_ms`
    /// when it expired before `now`; returns whether it did.
    pub fn extend_expiration_if_expired(&mut self, source_key: &str, duration_ms: u64, now: u64) -> (r:
        bool)
        requires
            old(self).wf(),
            now + duration_ms <= u64::MAX,
        ensures
            final(self).wf(),
            final(self).spec_window() == old(self).spec_window(),
            final(self).spec_min_len() == old(self).spec_min_len(),
            final(self).spec_max_id_gap() == old(self).spec_max_id_gap(),
            ({
                let e = old(self).entries();
                let k = source_key@;
                r == (old(self).spec_window() > 0 && e.contains_key(k) && e[k].expires_at < now)
                    && if r {
                    final(self).entries() == e.insert(
                        k,
                        CacheSpec { expires_at: (now + duration_ms) as u64, ..e[k] },
                    )
                } else {
                    final(self).entries() == e
                }
            }),
    {
        if self.merge_window_ms == 0 {
            return false;
        }
        match self.cache.find(source_key) {
            Some(i) => {
                if self.cache.val(i).expires_at >= now {
                    return false;
                }
                self.extend_expiration(source_key, duration_ms, now);
                true
            },
            None => false,
        }
    }

    /// The sources whose held-back message expired before `now` (none when holding back
    /// is off).
    pub fn get_expired_keys(&self, now: u64) -> (r: Vec<String>)
        requires
            self.wf(),
        ensures
            self.spec_window() == 0 ==> r@.len() == 0,
            self.spec_window() > 0 ==> {
                &&& forall|i: int|
                    0 <= i < r@.len() ==> self.entries().contains_key(#[trigger] r@[i]@)
                        && self.entries()[r@[i]@].expires_at < now
                &&& forall|k: Seq<char>|
                    #[trigger] self.entries().contains_key(k) && self.entries()[k].expires_at < now
                        ==> exists|i: int| 0 <= i < r@.len() && r@[i]@ == k
            },
    {
        let mut out: Vec<String> = Vec::new();
        if self.merge_window_ms == 0 {
            return out;
        }
        proof {
            self.cache.lemma_view_keys();
        }
        let n = self.cache.len();
        let mut i: usize = 0;
        while i < n
            invariant
                self.wf(),
                n == self.cache.spec_len(),
                i <= n,
                forall|j: int|
                    0 <= j < out@.len() ==> self.entries().contains_key(#[trigger] out@[j]@)
                        && self.entries()[out@[j]@].expires_at < now,
                forall|j: int|
                    0 <= j < i && self.cache.val_at(j).expires_at < now ==> exists|q: int|
                        0 <= q < out@.len() && out@[q]@ == self.cache.key_at(j),
            decreases n - i,
        {
            proof {
                self.cache.lemma_view_keys();
            }
            if self.cache.val(i).expires_at < now {
                let ghost before = out@;
                out.push(self.cache.key(i).clone());
                proof {
                    assert(out@[before.len() as int]@ == self.cache.key_at(i as int));
                    assert forall|j: int|
                        0 <= j < i + 1 && self.cache.val_at(j).expires_at < now implies exists|q: int|
                        0 <= q < out@.len() && out@[q]@ == self.cache.key_at(j) by {
                        if j < i {
                            let q = choose|q: int|
                                0 <= q < before.len() && before[q]@ == self.cache.key_at(j);
                            assert(out@[q] == before[q]);
                        } else {
                            assert(out@[before.len() as int]@ == self.cache.key_at(j));
                        }
                    }
                }
            }
            i = i + 1;
        }
        proof {
            self.cache.lemma_view_keys();
            assert forall|k: Seq<char>|
                #[trigger] self.entries().contains_key(k) && self.entries()[k].expires_at < now
                    implies exists|q: int| 0 <= q < out@.len() && out@[q]@ == k by {
                let j = choose|j: int| 0 <= j < self.cache.spec_len() && self.cache.key_at(j) == k;
                assert(self.cache@[self.cache.key_at(j)] == self.cache.val_at(j));
            }
        }
        out
    }

    /// Takes out every held-back message that expired before `now`, with its source
    /// (none when holding back is off).
    pub fn take_expired(&mut self, now: u64) -> (r: Vec<(String, MessageView)>)
        requires
            old(self).wf(),
        ensures
            final(self).wf(),
            final(self).spec_window() == old(self).spec_window(),
            final(self).spec_min_len() == old(self).spec_min_len(),
            final(self).spec_max_id_gap() == old(self).spec_max_id_gap(),
            old(self).spec_window() == 0 ==> r@.len() == 0 && final(self).entries() == old(
                self,
            ).entries(),
            old(self).spec_window() > 0 ==> {
                let e = old(self).entries();
                &&& forall|i: int|
                    0 <= i < r@.len() ==> e.contains_key(#[trigger] r@[i].0@) && e[r@[i].0@].expires_at
                        < now && r@[i].1@ == e[r@[i].0@].message
                &&& forall|k: Seq<char>|
                    #[trigger] e.contains_key(k) && e[k].expires_at < now ==> exists|i: int|
                        0 <= i < r@.len() && r@[i].0@ == k
                &&& forall|k: Seq<char>|
                    #[trigger] final(self).entries().contains_key(k) <==> e.contains_key(k)
                        && e[k].expires_at >= now
                &&& forall|k: Seq<char>|
                    #[trigger] final(self).entries().contains_key(k) ==> final(self).entries()[k]
                        == e[k]
            },
    {
        let mut out: Vec<(String, MessageView)> = Vec::new();
        if self.merge_window_ms == 0 {
            return out;
        }
        let ghost e = self.entries();
        let mut old_cache: StrMap<TextMergeCache> = StrMap::new();
        std::mem::swap(&mut old_cache, &mut self.cache);
        proof {
            old_cache.lemma_view_keys();
            old_cache.lemma_len();
        }
        let n = old_cache.len();
        let mut i: usize = 0;
        while i < n
            invariant
                old_cache.wf(),
                self.cache.wf(),
                n == old_cache.spec_len(),
                i <= n,
                e == old_cache@.map_values(
                    |c: TextMergeCache| CacheSpec { message: c.message@, expires_at: c.expires_at },
                ),
                forall|a: int, b: int| 0 <= a < b < n ==> old_cache.key_at(a) != old_cache.key_at(b),
                forall|j: int| 0 <= j < n ==> #[trigger] old_cache@[old_cache.key_at(j)] == old_cache.val_at(j)
                    && old_cache@.contains_key(old_cache.key_at(j)),
                forall|k: Seq<char>| #[trigger] old_cache@.contains_key(k) <==> exists|j: int|
                    0 <= j < n && old_cache.key_at(j) == k,
                forall|k: Seq<char>| #[trigger] self.cache@.contains_key(k) <==> exists|j: int|
                    0 <= j < i && old_cache.key_at(j) == k && old_cache.val_at(j).expires_at >= now,
                forall|j: int|
                    0 <= j < i && old_cache.val_at(j).expires_at >= now ==> cache_view(
                        self.cache@[old_cache.key_at(j)],
                    ) == cache_view(old_cache.val_at(j)),
                self.merge_window_ms == old(self).merge_window_ms,
                self.min_len == old(self).min_len,
                self.max_id_gap == old(self).max_id_gap,
                forall|q: int|
                    0 <= q < out@.len() ==> e.contains_key(#[trigger] out@[q].0@) && e[out@[q].0@].expires_at
                        < now && out@[q].1@ == e[out@[q].0@].message,
                forall|j: int|
                    0 <= j < i && old_cache.val_at(j).expires_at < now ==> exists|q: int|
                        0 <= q < out@.len() && out@[q].0@ == old_cache.key_at(j),
            decreases n - i,
        {
            let key = old_cache.key(i).clone();
            let ghost kj = old_cache.key_at(i as int);
            if old_cache.val(i).expires_at < now {
                let ghost before = out@;
                out.push((key, old_cache.val(i).message.duplicate()));
                proof {
                    assert(out@[before.len() as int].0@ == kj);
                    assert(e[kj] == CacheSpec {
                        message: old_cache.val_at(i as int).message@,
                        expires_at: old_cache.val_at(i as int).expires_at,
                    });
                    assert forall|q: int| 0 <= q < out@.len() implies e.contains_key(
                        #[trigger] out@[q].0@,
                    ) && e[out@[q].0@].expires_at < now && out@[q].1@ == e[out@[q].0@].message by {
                        if q < before.len() {
                            assert(out@[q] == before[q]);
                        }
                    }
                    assert forall|j: int|
                        0 <= j < i + 1 && old_cache.val_at(j).expires_at < now implies exists|q: int|
                        0 <= q < out@.len() && out@[q].0@ == old_cache.key_at(j) by {
                        if j < i {
                            let q = choose|q: int|
                                0 <= q < before.len() && before[q].0@ == old_cache.key_at(j);
                            assert(out@[q] == before[q]);
                        } else {
                            assert(out@[before.len() as int].0@ == old_cache.key_at(j));
                        }
                    }
                }
            } else {
                let v = TextMergeCache {
                    message: old_cache.val(i).message.duplicate(),
                    expires_at: old_cache.val(i).expires_at,
                };
                proof {
                    assert(!self.cache@.contains_key(kj)) by {
                        if self.cache@.contains_key(kj) {
                            let j = choose|j: int|
                                0 <= j < i && old_cache.key_at(j) == kj && old_cache.val_at(j).expires_at
                                    >= now;
                            assert(old_cache.key_at(j) != old_cache.key_at(i as int));
                        }
                    }
                }
                let ghost before = self.cache@;
                self.cache.push(key, v);
                proof {
                    assert forall|k: Seq<char>| #[trigger] self.cache@.contains_key(k) <==> exists|j: int|
                        0 <= j < i + 1 && old_cache.key_at(j) == k && old_cache.val_at(j).expires_at
                            >= now by {
                        if k == kj {
                            assert(old_cache.key_at(i as int) == k);
                        }
                    }
                    assert forall|j: int|
                        0 <= j < i + 1 && old_cache.val_at(j).expires_at >= now implies cache_view(
                        self.cache@[old_cache.key_at(j)],
                    ) == cache_view(old_cache.val_at(j)) by {
                        if j < i {
                            assert(old_cache.key_at(j) != kj);
                        }
                    }
                }
            }
            i = i + 1;
        }
        proof {
            assert forall|k: Seq<char>|
                #[trigger] e.contains_key(k) && e[k].expires_at < now implies exists|q: int|
                0 <= q < out@.len() && out@[q].0@ == k by {
                let j = choose|j: int| 0 <= j < n && old_cache.key_at(j) == k;
                assert(old_cache@[old_cache.key_at(j)] == old_cache.val_at(j));
            }
            assert forall|k: Seq<char>|
                #[trigger] self.entries().contains_key(k) <==> e.contains_key(k) && e[k].expires_at
                    >= now by {
                if e.contains_key(k) && e[k].expires_at >= now {
                    let j = choose|j: int| 0 <= j < n && old_cache.key_at(j) == k;
                    assert(old_cache@[old_cache.key_at(j)] == old_cache.val_at(j));
                }
                if self.entries().contains_key(k) {
                    let j = choose|j: int|
                        0 <= j < i && old_cache.key_at(j) == k && old_cache.val_at(j).expires_at >= now;
                    assert(old_cache@[old_cache.key_at(j)] == old_cache.val_at(j));
                }
            }
            assert forall|k: Seq<char>| #[trigger] self.entries().contains_key(k) implies self.entries()[k]
                == e[k] by {
                let j = choose|j: int|
                    0 <= j < i && old_cache.key_at(j) == k && old_cache.val_at(j).expires_at >= now;
                assert(old_cache@[old_cache.key_at(j)] == old_cache.val_at(j));
                assert(cache_view(self.cache@[k]) == cache_view(old_cache.val_at(j)));
            }
        }
        out
    }

    /// Takes out every held-back message, with its source (none when holding back is off).
    pub fn take_all(&mut self) -> (r: Vec<(String, MessageView)>)
        requires
            old(self).wf(),
        ensures
            final(self).wf(),
            final(self).spec_window() == old(self).spec_window(),
            final(self).spec_min_len() == old(self).spec_min_len(),
            final(self).spec_max_id_gap() == old(self).spec_max_id_gap(),
            old(self).spec_window() == 0 ==> r@.len() == 0 && final(self).entries() == old(
                self,
            ).entries(),
            old(self).spec_window() > 0 ==> {
                let e = old(self).entries();
                &&& final(self).entries() == Map::<Seq<char>, CacheSpec>::empty()
                &&& forall|i: int|
                    0 <= i < r@.len() ==> e.contains_key(#[trigger] r@[i].0@) && r@[i].1@
                        == e[r@[i].0@].message
                &&& forall|k: Seq<char>| #[trigger]
                    e.contains_key(k) ==> exists|i: int| 0 <= i < r@.len() && r@[i].0@ == k
            },
    {
        let mut out: Vec<(String, MessageView)> = Vec::new();
        if self.merge_window_ms == 0 || self.cache.len() == 0 {
            proof {
                self.cache.lemma_len();
                if self.cache.spec_len() == 0 {
                    assert(self.entries().dom() =~= Set::<Seq<char>>::empty());
                    assert(self.entries() =~= Map::<Seq<char>, CacheSpec>::empty());
                }
            }
            return out;
        }
        let ghost e = self.entries();
        let mut old_cache: StrMap<TextMergeCache> = StrMap::new();
        std::mem::swap(&mut old_cache, &mut self.cache);
        proof {
            old_cache.lemma_view_keys();
        }
        let n = old_cache.len();
        let mut i: usize = 0;
        while i < n
            invariant
                old_cache.wf(),
                n == old_cache.spec_len(),
                i <= n,
                e == old_cache@.map_values(
                    |c: TextMergeCache| CacheSpec { message: c.message@, expires_at: c.expires_at },
                ),
                forall|j: int| 0 <= j < n ==> #[trigger] old_cache@[old_cache.key_at(j)] == old_cache.val_at(j)
                    && old_cache@.contains_key(old_cache.key_at(j)),
                forall|k: Seq<char>| #[trigger] old_cache@.contains_key(k) <==> exists|j: int|
                    0 <= j < n && old_cache.key_at(j) == k,
                out@.len() == i,
                forall|q: int|
                    0 <= q < i ==> (#[trigger] out@[q]).0@ == old_cache.key_at(q) && out@[q].1@
                        == old_cache.val_at(q).message@,
                self.merge_window_ms == old(self).merge_window_ms,
                self.min_len == old(self).min_len,
                self.max_id_gap == old(self).max_id_gap,
                self.cache@ == Map::<Seq<char>, TextMergeCache>::empty(),
                self.cache.wf(),
            decreases n - i,
        {
            out.push((old_cache.key(i).clone(), old_cache.val(i).message.duplicate()));
            i = i + 1;
        }
        proof {
            assert forall|q: int| 0 <= q < out@.len() implies e.contains_key(#[trigger] out@[q].0@)
                && out@[q].1@ == e[out@[q].0@].message by {
                assert(old_cache@[old_cache.key_at(q)] == old_cache.val_at(q));
            }
            assert forall|k: Seq<char>| #[trigger] e.contains_key(k) implies exists|q: int|
                0 <= q < out@.len() && out@[q].0@ == k by {
                let j = choose|j: int| 0 <= j < n && old_cache.key_at(j) == k;
                assert(out@[j].0@ == k);
            }
            assert(self.entries() =~= Map::<Seq<char>, CacheSpec>::empty());
        }
        out
    }

    /// Drops every held-back message that expired before `now`.
    pub fn flush_expired(&mut self, now: u64)
        requires
            old(self).wf(),
        ensures
            final(self).wf(),
            final(self).spec_window() == old(self).spec_window(),
            final(self).spec_min_len() == old(self).spec_min_len(),
            final(self).spec_max_id_gap() == old(self).spec_max_id_gap(),
            old(self).spec_window() == 0 ==> final(self).entries() == old(self).entries(),
            old(self).spec_window() > 0 ==> forall|k: Seq<char>| #[trigger]
                final(self).entries().contains_key(k) <==> old(self).entries().contains_key(k)
                    && old(self).entries()[k].expires_at >= now,
    {
        let _ = self.take_expired(now);
    }
}

} // verus!
