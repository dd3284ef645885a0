//! Grouping the messages of an album as they arrive: one cache per source and album
//! id, messages kept in id order, flushed when full or when the caller finds them stale.
use crate::model::{MessageSpec, MessageView};
use crate::table::str_eq;
use crate::text::{str_is_blank, trim_chars, trim_ws};
use crate::utf16::{str_chars, string_from_chars};
use vstd::prelude::*;

verus! {

/// Identifies an album: its source and its album id.
pub struct AlbumKey {
    pub source_key: String,
    pub album_id: i64,
}

impl AlbumKey {
    /// A copy.
    pub fn duplicate(&self) -> (r: Self)
        ensures
            r.source_key@ == self.source_key@,
            r.album_id == self.album_id,
    {
        AlbumKey { source_key: self.source_key.clone(), album_id: self.album_id }
    }
}

/// One cached album as a mathematical value.
pub struct AlbumSpec {
    pub source: Seq<char>,
    pub album_id: i64,
    pub messages: Seq<MessageSpec>,
    pub last_update: u64,
}

struct AlbumCache {
    key: AlbumKey,
    messages: Vec<MessageView>,
    last_update: u64,
}

/// What adding a message did.
pub enum AlbumAction {
    NotAlbum,
    Cached,
    Duplicate,
    Flush(Vec<MessageView>),
}

/// The cached albums, and how many messages make an album full.
pub struct AlbumAggregator {
    cache: Vec<AlbumCache>,
    max_items: usize,
}

/// Messages in increasing id order.
pub open spec fn sorted_by_id(s: Seq<MessageSpec>) -> bool {
    forall|i: int, j: int| 0 <= i < j < s.len() ==> s[i].id < s[j].id
}

/// `s` with `m` put in its place by id, replacing a message with the same id.
pub open spec fn insert_by_id(s: Seq<MessageSpec>, m: MessageSpec) -> Seq<MessageSpec>
    decreases s.len(),
{
    if s.len() == 0 {
        seq![m]
    } else if s[0].id == m.id {
        seq![m] + s.drop_first()
    } else if s[0].id > m.id {
        seq![m] + s
    } else {
        seq![s[0]] + insert_by_id(s.drop_first(), m)
    }
}

/// Whether a cached message is kept when another with its id arrives: an edit beats an
/// unedited one, a text beats no text, and otherwise the longer text wins (ties keep the
/// cached one).
pub open spec fn keep_existing(existing: MessageSpec, incoming: MessageSpec) -> bool {
    let et = trim_ws(existing.text);
    let it = trim_ws(incoming.text);
    if existing.is_edit && !incoming.is_edit {
        true
    } else if (!existing.is_edit && incoming.is_edit) || (et.len() == 0 && it.len() > 0) {
        false
    } else if et.len() > 0 && it.len() == 0 {
        true
    } else {
        et.len() >= it.len()
    }
}

/// Index of the album with the given key.
pub open spec fn album_index(v: Seq<AlbumSpec>, source: Seq<char>, album_id: i64) -> Option<int>
    decreases v.len(),
{
    if v.len() == 0 {
        None
    } else if v.last().source == source && v.last().album_id == album_id {
        Some(v.len() - 1)
    } else {
        album_index(v.drop_last(), source, album_id)
    }
}

/// Index of the message with id `id`.
pub open spec fn message_index(s: Seq<MessageSpec>, id: i64) -> Option<int>
    decreases s.len(),
{
    if s.len() == 0 {
        None
    } else if s.last().id == id {
        Some(s.len() - 1)
    } else {
        message_index(s.drop_last(), id)
    }
}

/// The albums and the action after `m` of `source` arrives at time `now`.
pub open spec fn after_add(v: Seq<AlbumSpec>, max_items: usize, m: MessageSpec, source: Seq<char>, now: u64) -> (
    Seq<AlbumSpec>,
    Option<Seq<MessageSpec>>,
) {
    let aid = m.album_id.unwrap();
    let idx = album_index(v, source, aid);
    let msgs = match idx {
        Some(i) => v[i].messages,
        None => Seq::empty(),
    };
    let put = |ms: Seq<MessageSpec>|
        match idx {
            Some(i) => v.update(i, AlbumSpec { messages: ms, last_update: now, ..v[i] }),
            None => v.push(AlbumSpec { source, album_id: aid, messages: ms, last_update: now }),
        };
    match message_index(msgs, m.id) {
        Some(j) => (put(if keep_existing(msgs[j], m) {
            msgs
        } else {
            msgs.update(j, m)
        }), None),
        None => {
            let ms = insert_by_id(msgs, m);
            if ms.len() >= max_items {
                (
                    match idx {
                        Some(i) => v.remove(i),
                        None => v,
                    },
                    Some(ms),
                )
            } else {
                (put(ms), None)
            }
        },
    }
}

/// The source and album id of each key.
pub open spec fn key_views(s: Seq<AlbumKey>) -> Seq<(Seq<char>, i64)> {
    s.map_values(|k: AlbumKey| (k.source_key@, k.album_id))
}

/// Keys of the albums not updated for at least `delay` milliseconds at time `now`.
pub open spec fn expired_albums(v: Seq<AlbumSpec>, delay: u64, now: u64) -> Seq<(Seq<char>, i64)>
    decreases v.len(),
{
    if v.len() == 0 {
        Seq::empty()
    } else {
        let prev = expired_albums(v.drop_last(), delay, now);
        if crate::state::elapsed_ms(v.last().last_update, now) >= delay {
            prev.push((v.last().source, v.last().album_id))
        } else {
            prev
        }
    }
}

/// The views of a list of messages.
pub open spec fn message_views(s: Seq<MessageView>) -> Seq<MessageSpec> {
    s.map_values(|m: MessageView| m@)
}

impl AlbumAggregator {
    /// Keys distinct, every album's messages in increasing id order.
    pub closed spec fn wf(&self) -> bool {
        &&& forall|i: int, j: int|
            0 <= i < j < self.cache@.len() ==> !(self.cache@[i].key.source_key@
                == self.cache@[j].key.source_key@ && self.cache@[i].key.album_id
                == self.cache@[j].key.album_id)
        &&& forall|i: int|
            0 <= i < self.cache@.len() ==> sorted_by_id(
                message_views(#[trigger] self.cache@[i].messages@),
            )
    }

    /// The cached albums.
    pub closed spec fn albums(&self) -> Seq<AlbumSpec> {
        self.cache@.map_values(
            |c: AlbumCache|
                AlbumSpec {
                    source: c.key.source_key@,
                    album_id: c.key.album_id,
                    messages: message_views(c.messages@),
                    last_update: c.last_update,
                },
        )
    }

    pub closed spec fn spec_max_items(&self) -> usize {
        self.max_items
    }

    /// No albums cached.
    pub fn new(max_items: usize) -> (r: Self)
        ensures
            r.wf(),
            r.albums() == Seq::<AlbumSpec>::empty(),
            r.spec_max_items() == max_items,
    {
        let r = AlbumAggregator { cache: Vec::new(), max_items };
        assert(r.albums() =~= Seq::<AlbumSpec>::empty());
        r
    }

    /// Index of the album with the given key, as `album_index` states.
    fn find(&self, source: &str, album_id: i64) -> (r: Option<usize>)
        ensures
            r matches Some(i) ==> album_index(self.albums(), source@, album_id) == Some(i as int),
            r is None ==> album_index(self.albums(), source@, album_id) is None,
    {
        let mut i = self.cache.len();
        assert(self.albums().take(i as int) =~= self.albums());
        while i > 0
            invariant
                i <= self.cache@.len(),
                album_index(self.albums(), source@, album_id) == album_index(
                    self.albums().take(i as int),
                    source@,
                    album_id,
                ),
            decreases i,
        {
            let c = &self.cache[i - 1];
            assert(self.albums().take(i as int).drop_last() =~= self.albums().take(i - 1));
            if c.key.album_id == album_id && str_eq(c.key.source_key.as_str(), source) {
                return Some(i - 1);
            }
            i = i - 1;
        }
        None
    }

    /// Replaces the cached message with the same id as `message`, if its album is cached;
    /// returns whether it was.
    pub fn update_if_cached(&mut self, message: MessageView, source_key: &str, now: u64) -> (r: bool)
        requires
            old(self).wf(),
        ensures
            final(self).wf(),
            final(self).spec_max_items() == old(self).spec_max_items(),
            match message@.album_id {
                None => !r && final(self).albums() == old(self).albums(),
                Some(aid) => match album_index(old(self).albums(), source_key@, aid) {
                    None => !r && final(self).albums() == old(self).albums(),
                    Some(i) => r && final(self).albums() == old(self).albums().update(
                        i,
                        AlbumSpec {
                            messages: insert_by_id(old(self).albums()[i].messages, message@),
                            last_update: now,
                            ..old(self).albums()[i]
                        },
                    ),
                },
            },
    {
        let aid = match message.album_id {
            Some(id) => id,
            None => {
                return false;
            },
        };
        let i = match self.find(source_key, aid) {
            Some(i) => i,
            None => {
                return false;
            },
        };
        proof {
            lemma_album_index(self.albums(), source_key@, aid);
        }
        let mut cache = Vec::new();
        std::mem::swap(&mut cache, &mut self.cache);
        assert(sorted_by_id(message_views(cache@[i as int].messages@)));
        let mut entry = cache.remove(i);
        let ghost mv = message@;
        entry.messages = insert_sorted(entry.messages, message);
        entry.last_update = now;
        cache.insert(i, entry);
        std::mem::swap(&mut cache, &mut self.cache);
        assert(self.albums() =~= old(self).albums().update(
            i as int,
            AlbumSpec {
                messages: insert_by_id(old(self).albums()[i as int].messages, mv),
                last_update: now,
                ..old(self).albums()[i as int]
            },
        ));
        true
    }
}

/// Whether the cached `existing` is kept over `incoming`, as `keep_existing` states.
fn keep_existing_exec(existing: &MessageView, incoming: &MessageView) -> (r: bool)
    ensures
        r == keep_existing(existing@, incoming@),
{
    let et = trim_chars(existing.text.as_str());
    let it = trim_chars(incoming.text.as_str());
    if existing.is_edit && !incoming.is_edit {
        true
    } else if (!existing.is_edit && incoming.is_edit) || (et.len() == 0 && it.len() > 0) {
        false
    } else if et.len() > 0 && it.len() == 0 {
        true
    } else {
        et.len() >= it.len()
    }
}

/// Index of the message with id `id`, as `message_index` states.
pub(crate) fn find_message(v: &Vec<MessageView>, id: i64) -> (r: Option<usize>)
    ensures
        r matches Some(j) ==> message_index(message_views(v@), id) == Some(j as int),
        r is None ==> message_index(message_views(v@), id) is None,
{
    let ghost s = message_views(v@);
    let mut i = v.len();
    assert(s.take(i as int) =~= s);
    while i > 0
        invariant
            i <= v@.len(),
            s == message_views(v@),
            message_index(s, id) == message_index(s.take(i as int), id),
        decreases i,
    {
        assert(s.take(i as int).drop_last() =~= s.take(i - 1));
        if v[i - 1].id == id {
            return Some(i - 1);
        }
        i = i - 1;
    }
    None
}

/// A copy of a list of messages.
pub(crate) fn copy_messages(v: &Vec<MessageView>) -> (r: Vec<MessageView>)
    ensures
        message_views(r@) == message_views(v@),
{
    let mut out: Vec<MessageView> = Vec::new();
    let mut i: usize = 0;
    while i < v.len()
        invariant
            i <= v@.len(),
            message_views(out@) =~= message_views(v@).take(i as int),
        decreases v@.len() - i,
    {
        let ghost before = message_views(out@);
        out.push(v[i].duplicate());
        assert(message_views(out@) =~= before.push(v@[i as int]@));
        i = i + 1;
    }
    out
}

impl AlbumAggregator {
    /// Adds a message of `source_key` at time `now`, as `after_add` states: `NotAlbum`
    /// without an album id; `Flush` with the album's messages in id order when it
    /// becomes full (and leaves the cache); `Cached` otherwise.
    pub fn add_message(&mut self, message: MessageView, source_key: &str, now: u64) -> (r: AlbumAction)
        requires
            old(self).wf(),
        ensures
            final(self).wf(),
            final(self).spec_max_items() == old(self).spec_max_items(),
            match message@.album_id {
                None => r is NotAlbum && final(self).albums() == old(self).albums(),
                Some(_) => {
                    let (v2, fl) = after_add(
                        old(self).albums(),
                        old(self).spec_max_items(),
                        message@,
                        source_key@,
                        now,
                    );
                    &&& final(self).albums() == v2
                    &&& match fl {
                        Some(ms) => r matches AlbumAction::Flush(out) && message_views(out@)
                            == ms,
                        None => r is Cached,
                    }
                },
            },
    {
        let aid = match message.album_id {
            Some(id) => id,
            None => {
                return AlbumAction::NotAlbum;
            },
        };
        let ghost v = self.albums();
        let ghost mv = message@;
        let idx = self.find(source_key, aid);
        proof {
            lemma_album_index(v, source_key@, aid);
        }
        let mut cache = Vec::new();
        std::mem::swap(&mut cache, &mut self.cache);
        let mut entry = match idx {
            Some(i) => cache.remove(i),
            None => {
                let sk = string_from_chars(str_chars(source_key).as_slice());
                AlbumCache {
                    key: AlbumKey { source_key: sk, album_id: aid },
                    messages: Vec::new(),
                    last_update: now,
                }
            },
        };
        let ghost msgs = message_views(entry.messages@);
        assert(msgs == match album_index(v, source_key@, aid) {
            Some(i) => v[i].messages,
            None => Seq::<MessageSpec>::empty(),
        });
        assert(sorted_by_id(msgs));
        let pos = find_message(&entry.messages, message.id);
        proof {
            lemma_message_index(msgs, message.id);
        }
        let flush = match pos {
            Some(j) => {
                if !keep_existing_exec(&entry.messages[j], &message) {
                    entry.messages.set(j, message);
                    assert(message_views(entry.messages@) =~= msgs.update(j as int, mv));
                    assert(sorted_by_id(message_views(entry.messages@))) by {
                        assert forall|a: int, b: int|
                            0 <= a < b < msgs.len() implies message_views(entry.messages@)[a].id
                            < message_views(entry.messages@)[b].id by {
                            assert(msgs[j as int].id == mv.id);
                        }
                    }
                }
                false
            },
            None => {
                entry.messages = insert_sorted(entry.messages, message);
                entry.messages.len() >= self.max_items
            },
        };
        entry.last_update = now;
        if flush {
            let out = entry.messages;
            std::mem::swap(&mut cache, &mut self.cache);
            proof {
                match idx {
                    Some(i) => {
                        assert(self.albums() =~= v.remove(i as int));
                    },
                    None => {
                        assert(self.albums() =~= v);
                    },
                }
                self.lemma_wf_after_remove(old(self).cache@, idx);
            }
            return AlbumAction::Flush(out);
        }
        let ghost ne = entry;
        match idx {
            Some(i) => {
                cache.insert(i, entry);
            },
            None => {
                cache.push(entry);
            },
        }
        std::mem::swap(&mut cache, &mut self.cache);
        proof {
            let nspec = AlbumSpec {
                source: ne.key.source_key@,
                album_id: ne.key.album_id,
                messages: message_views(ne.messages@),
                last_update: now,
            };
            match idx {
                Some(i) => {
                    assert(self.albums() =~= v.update(i as int, nspec));
                    assert(self.cache@ =~= old(self).cache@.update(i as int, ne));
                },
                None => {
                    assert(self.albums() =~= v.push(nspec));
                    assert(self.cache@ =~= old(self).cache@.push(ne));
                },
            }
            assert forall|a: int, b: int| 0 <= a < b < self.cache@.len() implies !(
            self.cache@[a].key.source_key@ == self.cache@[b].key.source_key@
                && self.cache@[a].key.album_id == self.cache@[b].key.album_id) by {
                if idx is None && b == self.cache@.len() - 1 {
                    assert(v[a].source == self.cache@[a].key.source_key@);
                }
            }
            assert forall|a: int| 0 <= a < self.cache@.len() implies sorted_by_id(
                message_views(#[trigger] self.cache@[a].messages@),
            ) by {
                if a != (match idx {
                    Some(i) => i as int,
                    None => old(self).cache@.len() as int,
                }) {
                    assert(self.cache@[a] == old(self).cache@[a]);
                }
            }
        }
        AlbumAction::Cached
    }

    proof fn lemma_wf_after_remove(&self, before: Seq<AlbumCache>, idx: Option<usize>)
        requires
            forall|i: int, j: int|
                0 <= i < j < before.len() ==> !(before[i].key.source_key@
                    == before[j].key.source_key@ && before[i].key.album_id
                    == before[j].key.album_id),
            forall|i: int|
                0 <= i < before.len() ==> sorted_by_id(message_views(#[trigger] before[i].messages@)),
            match idx {
                Some(i) => i < before.len() && self.cache@ == before.remove(i as int),
                None => self.cache@ == before,
            },
        ensures
            self.wf(),
    {
        match idx {
            Some(i) => {
                assert forall|a: int, b: int| 0 <= a < b < self.cache@.len() implies !(
                self.cache@[a].key.source_key@ == self.cache@[b].key.source_key@
                    && self.cache@[a].key.album_id == self.cache@[b].key.album_id) by {
                    let oa = if a < i {
                        a
                    } else {
                        a + 1
                    };
                    let ob = if b < i {
                        b
                    } else {
                        b + 1
                    };
                    assert(self.cache@[a] == before[oa]);
                    assert(self.cache@[b] == before[ob]);
                }
                assert forall|a: int| 0 <= a < self.cache@.len() implies sorted_by_id(
                    message_views(#[trigger] self.cache@[a].messages@),
                ) by {
                    let oa = if a < i {
                        a
                    } else {
                        a + 1
                    };
                    assert(self.cache@[a] == before[oa]);
                }
            },
            None => {},
        }
    }

    /// Keys of the albums not updated for at least `delay` milliseconds at time `now`,
    /// as `expired_albums` states.
    pub fn expired_keys(&self, delay: u64, now: u64) -> (r: Vec<AlbumKey>)
        ensures
            key_views(r@) == expired_albums(self.albums(), delay, now),
    {
        let mut out: Vec<AlbumKey> = Vec::new();
        let mut i: usize = 0;
        while i < self.cache.len()
            invariant
                i <= self.cache@.len(),
                key_views(out@) == expired_albums(self.albums().take(i as int), delay, now),
            decreases self.cache@.len() - i,
        {
            let c = &self.cache[i];
            assert(self.albums().take(i + 1).drop_last() =~= self.albums().take(i as int));
            let elapsed = if now >= c.last_update {
                now - c.last_update
            } else {
                0
            };
            if elapsed >= delay {
                let ghost before = key_views(out@);
                out.push(c.key.duplicate());
                assert(key_views(out@) =~= before.push((c.key.source_key@, c.key.album_id)));
            }
            i = i + 1;
        }
        assert(self.albums().take(i as int) =~= self.albums());
        out
    }

    /// Takes the album with `key` out of the cache, giving its messages in id order.
    pub fn flush(&mut self, key: &AlbumKey) -> (r: Option<Vec<MessageView>>)
        requires
            old(self).wf(),
        ensures
            final(self).wf(),
            final(self).spec_max_items() == old(self).spec_max_items(),
            match album_index(old(self).albums(), key.source_key@, key.album_id) {
                Some(i) => r matches Some(ms) && message_views(ms@) == old(self).albums()[i].messages
                    && final(self).albums() == old(self).albums().remove(i),
                None => r is None && final(self).albums() == old(self).albums(),
            },
    {
        let ghost v = self.albums();
        let idx = self.find(key.source_key.as_str(), key.album_id);
        proof {
            lemma_album_index(v, key.source_key@, key.album_id);
        }
        match idx {
            Some(i) => {
                let mut cache = Vec::new();
                std::mem::swap(&mut cache, &mut self.cache);
                let entry = cache.remove(i);
                std::mem::swap(&mut cache, &mut self.cache);
                proof {
                    assert(self.albums() =~= v.remove(i as int));
                    self.lemma_wf_after_remove(old(self).cache@, idx);
                }
                Some(entry.messages)
            },
            None => None,
        }
    }

    /// A copy of the messages of the album with `key`, in id order.
    pub fn get(&self, key: &AlbumKey) -> (r: Option<Vec<MessageView>>)
        ensures
            match album_index(self.albums(), key.source_key@, key.album_id) {
                Some(i) => r matches Some(ms) && message_views(ms@) == self.albums()[i].messages,
                None => r is None,
            },
    {
        let idx = self.find(key.source_key.as_str(), key.album_id);
        proof {
            lemma_album_index(self.albums(), key.source_key@, key.album_id);
        }
        match idx {
            Some(i) => Some(copy_messages(&self.cache[i].messages)),
            None => None,
        }
    }

    /// Whether an album of `source_key` is cached.
    pub fn has_pending_album(&self, source_key: &str) -> (r: bool)
        ensures
            r == exists|i: int|
                0 <= i < self.albums().len() && #[trigger] self.albums()[i].source == source_key@,
    {
        let mut i: usize = 0;
        while i < self.cache.len()
            invariant
                i <= self.cache@.len(),
                forall|j: int| 0 <= j < i ==> #[trigger] self.albums()[j].source != source_key@,
            decreases self.cache@.len() - i,
        {
            if str_eq(self.cache[i].key.source_key.as_str(), source_key) {
                assert(self.albums()[i as int].source == source_key@);
                return true;
            }
            i = i + 1;
        }
        false
    }

    /// Takes every album out of the cache, each with its messages in id order.
    pub fn drain_all(&mut self) -> (r: Vec<(AlbumKey, Vec<MessageView>)>)
        requires
            old(self).wf(),
        ensures
            final(self).wf(),
            final(self).albums() == Seq::<AlbumSpec>::empty(),
            final(self).spec_max_items() == old(self).spec_max_items(),
            r@.len() == old(self).albums().len(),
            forall|i: int|
                0 <= i < r@.len() ==> (#[trigger] r@[i]).0.source_key@ == old(self).albums()[i].source
                    && r@[i].0.album_id == old(self).albums()[i].album_id && message_views(
                    r@[i].1@,
                ) == old(self).albums()[i].messages,
    {
        let mut cache = Vec::new();
        std::mem::swap(&mut cache, &mut self.cache);
        let ghost all = cache@;
        assert(all.len() == cache.len());
        let mut out: Vec<(AlbumKey, Vec<MessageView>)> = Vec::new();
        let mut rest = cache;
        let mut taken: usize = 0;
        while rest.len() > 0
            invariant
                out@.len() == taken,
                all.len() <= usize::MAX,
                taken + rest@.len() == all.len(),
                rest@ == all.skip(taken as int),
                forall|i: int|
                    0 <= i < out@.len() ==> (#[trigger] out@[i]).0.source_key@ == all[i].key.source_key@
                        && out@[i].0.album_id == all[i].key.album_id && message_views(out@[i].1@)
                        == message_views(all[i].messages@),
            decreases rest@.len(),
        {
            let entry = rest.remove(0);
            assert(entry == all[taken as int]);
            assert(rest@ =~= all.skip(taken + 1));
            out.push((entry.key, entry.messages));
            taken = taken + 1;
        }
        assert(self.albums() =~= Seq::<AlbumSpec>::empty());
        out
    }
}

/// What `album_index` finds is an album with the key.
proof fn lemma_album_index(v: Seq<AlbumSpec>, source: Seq<char>, album_id: i64)
    ensures
        album_index(v, source, album_id) matches Some(i) ==> 0 <= i < v.len() && v[i].source
            == source && v[i].album_id == album_id,
        album_index(v, source, album_id) is None ==> forall|i: int|
            0 <= i < v.len() ==> !(v[i].source == source && v[i].album_id == album_id),
    decreases v.len(),
{
    if v.len() > 0 {
        lemma_album_index(v.drop_last(), source, album_id);
        assert forall|i: int| 0 <= i < v.len() - 1 implies v.drop_last()[i] == v[i] by {}
    }
}

/// What `message_index` finds is a message with the id.
pub(crate) proof fn lemma_message_index(s: Seq<MessageSpec>, id: i64)
    ensures
        message_index(s, id) matches Some(j) ==> 0 <= j < s.len() && s[j].id == id,
        message_index(s, id) is None ==> forall|j: int| 0 <= j < s.len() ==> s[j].id != id,
    decreases s.len(),
{
    if s.len() > 0 {
        lemma_message_index(s.drop_last(), id);
        assert forall|j: int| 0 <= j < s.len() - 1 implies s.drop_last()[j] == s[j] by {}
    }
}

/// `insert_by_id` keeps messages in id order.
proof fn lemma_insert_sorted(s: Seq<MessageSpec>, m: MessageSpec)
    requires
        sorted_by_id(s),
    ensures
        sorted_by_id(insert_by_id(s, m)),
        forall|k: int|
            0 <= k < insert_by_id(s, m).len() ==> (#[trigger] insert_by_id(s, m)[k]).id == m.id
                || s.contains(insert_by_id(s, m)[k]),
        insert_by_id(s, m).contains(m),
    decreases s.len(),
{
    if s.len() > 0 && s[0].id < m.id {
        let r = insert_by_id(s.drop_first(), m);
        lemma_insert_sorted(s.drop_first(), m);
        let full = seq![s[0]] + r;
        assert forall|i: int, j: int| 0 <= i < j < full.len() implies full[i].id < full[j].id by {
            if i == 0 {
                let x = full[j];
                assert(x == r[j - 1]);
                if x.id != m.id {
                    assert(s.drop_first().contains(x));
                    let k = choose|k: int| 0 <= k < s.drop_first().len() && s.drop_first()[k] == x;
                    assert(s[k + 1] == x);
                }
            }
        }
        assert forall|k: int| 0 <= k < full.len() implies (#[trigger] full[k]).id == m.id
            || s.contains(full[k]) by {
            if k == 0 {
                assert(s[0] == full[0]);
            } else {
                let x = full[k];
                assert(x == r[k - 1]);
                if x.id != m.id {
                    let q = choose|q: int| 0 <= q < s.drop_first().len() && s.drop_first()[q] == x;
                    assert(s[q + 1] == x);
                }
            }
        }
        let q = choose|q: int| 0 <= q < r.len() && r[q] == m;
        assert(full[q + 1] == m);
    } else if s.len() > 0 && s[0].id == m.id {
        let full = seq![m] + s.drop_first();
        assert forall|k: int| 0 <= k < full.len() implies (#[trigger] full[k]).id == m.id
            || s.contains(full[k]) by {
            if k > 0 {
                assert(s[k] == full[k]);
            }
        }
        assert(full[0] == m);
    } else if s.len() > 0 {
        let full = seq![m] + s;
        assert forall|k: int| 0 <= k < full.len() implies (#[trigger] full[k]).id == m.id
            || s.contains(full[k]) by {
            if k > 0 {
                assert(s[k - 1] == full[k]);
            }
        }
        assert(full[0] == m);
    } else {
        assert(insert_by_id(s, m)[0] == m);
    }
}

/// Puts `m` in its place by id in the sorted `v`, as `insert_by_id` states.
fn insert_sorted(v: Vec<MessageView>, m: MessageView) -> (r: Vec<MessageView>)
    requires
        sorted_by_id(message_views(v@)),
    ensures
        message_views(r@) == insert_by_id(message_views(v@), m@),
        sorted_by_id(message_views(r@)),
{
    let ghost s = message_views(v@);
    proof {
        lemma_insert_sorted(s, m@);
    }
    let mut out: Vec<MessageView> = Vec::new();
    let mut i: usize = 0;
    assert(s.skip(0) =~= s);
    assert(s.take(0) + insert_by_id(s, m@) =~= insert_by_id(s, m@));
    while i < v.len() && v[i].id < m.id
        invariant
            i <= v@.len(),
            s == message_views(v@),
            message_views(out@) =~= s.take(i as int),
            insert_by_id(s, m@) == s.take(i as int) + insert_by_id(s.skip(i as int), m@),
        decreases v@.len() - i,
    {
        let ghost rest = s.skip(i as int);
        assert(rest.drop_first() =~= s.skip(i + 1));
        assert(s.take(i + 1) =~= s.take(i as int) + seq![rest[0]]);
        out.push(v[i].duplicate());
        i = i + 1;
    }
    let ghost rest = s.skip(i as int);
    let mut j = i;
    if i < v.len() && v[i].id == m.id {
        j = i + 1;
        assert(rest.drop_first() =~= s.skip(i + 1));
    }
    let ghost mv = m@;
    out.push(m);
    while j < v.len()
        invariant
            i <= j <= v@.len(),
            s == message_views(v@),
            (if i < v@.len() && s[i as int].id == mv.id {
                i + 1
            } else {
                i as int
            }) <= j,
            message_views(out@) =~= s.take(i as int) + seq![mv] + s.subrange(
                (if i < v@.len() && s[i as int].id == mv.id {
                    i + 1
                } else {
                    i as int
                }),
                j as int,
            ),
        decreases v@.len() - j,
    {
        let ghost before = message_views(out@);
        out.push(v[j].duplicate());
        assert(message_views(out@) =~= before.push(s[j as int]));
        j = j + 1;
    }
    proof {
        let start = if i < v@.len() && s[i as int].id == mv.id {
            i + 1
        } else {
            i as int
        };
        assert(s.subrange(start, v@.len() as int) =~= s.skip(start));
        if i < v@.len() && s[i as int].id == mv.id {
            assert(insert_by_id(rest, mv) =~= seq![mv] + rest.drop_first());
            assert(rest.drop_first() =~= s.skip(i + 1));
        } else if i < v@.len() {
            assert(insert_by_id(rest, mv) =~= seq![mv] + rest);
        } else {
            assert(rest.len() == 0);
            assert(insert_by_id(rest, mv) =~= seq![mv]);
        }
    }
    assert(message_views(out@) =~= insert_by_id(s, mv));
    out
}

/// When a copy of a message already cached in its album arrives again, nothing is sent and
/// only that message's entry may change: an edited copy replaces an unedited cached one,
/// and an edited cached copy is kept over an unedited incoming one; between copies alike
/// in that, a non-blank text replaces a blank one, the longer trimmed text wins, and a tie
/// keeps the cached copy.
pub proof fn law_edited_copy_wins_in_album(
    v: Seq<AlbumSpec>,
    max_items: usize,
    m: MessageSpec,
    source: Seq<char>,
    now: u64,
    i: int,
    j: int,
)
    requires
        m.album_id is Some,
        album_index(v, source, m.album_id.unwrap()) == Some(i),
        message_index(v[i].messages, m.id) == Some(j),
    ensures
        ({
            let (v2, out) = after_add(v, max_items, m, source, now);
            &&& out is None
            &&& v2.len() == v.len()
            &&& v2[i].messages.len() == v[i].messages.len()
            &&& (!v[i].messages[j].is_edit && m.is_edit ==> v2[i].messages[j] == m)
            &&& (v[i].messages[j].is_edit && !m.is_edit ==> v2[i].messages[j]
                == v[i].messages[j])
            &&& (v[i].messages[j].is_edit == m.is_edit && trim_ws(m.text).len() > 0 && (trim_ws(
                v[i].messages[j].text,
            ).len() == 0 || trim_ws(m.text).len() > trim_ws(v[i].messages[j].text).len())
                ==> v2[i].messages[j] == m)
            &&& (v[i].messages[j].is_edit == m.is_edit && (trim_ws(m.text).len() == 0 || trim_ws(
                m.text,
            ).len() <= trim_ws(v[i].messages[j].text).len()) ==> v2[i].messages[j]
                == v[i].messages[j])
            &&& forall|k: int|
                0 <= k < v[i].messages.len() && k != j ==> v2[i].messages[k]
                    == v[i].messages[k]
        }),
{
    lemma_album_index(v, source, m.album_id.unwrap());
    lemma_message_index(v[i].messages, m.id);
}

} // verus!
