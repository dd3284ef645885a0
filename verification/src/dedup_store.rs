//! The saved deduplication history: fingerprints, media signatures with their lookup
//! sets, thumbnail hashes and recent text features, and whether it awaits saving.
use crate::bits::{hamming, lemma_clear_lowest, lemma_popcount_u64, popcount};
use crate::table::{str_views, StrSet};
use std::collections::VecDeque;
use vstd::prelude::*;

verus! {

/// A deduplication file as read: the version is `None` when it is missing or is not an
/// integer, and each list is `None` when it is missing or cannot be read as such a list.
pub struct DedupFile {
    pub version: Option<i64>,
    pub fingerprints: Option<VecDeque<u64>>,
    pub media_id_signatures: Option<VecDeque<String>>,
    pub media_meta_signatures: Option<VecDeque<String>>,
    pub media_thumb_hashes: Option<VecDeque<(u64, u64)>>,
    pub recent_text_features: Option<VecDeque<Vec<u64>>>,
}

/// Why a deduplication file is refused.
pub enum DedupLoadError {
    /// The file's format version cannot be read here.
    UnsupportedVersion(i64),
}

/// The version of a deduplication file, 0 when it has none.
pub open spec fn file_version(file: DedupFile) -> i64 {
    match file.version {
        Some(v) => v,
        None => 0,
    }
}

/// The entries of a list field, none when the field is missing.
pub open spec fn deque_or_empty<T>(d: Option<VecDeque<T>>) -> Seq<T> {
    match d {
        Some(x) => x@,
        None => Seq::empty(),
    }
}

/// The list of a list field, an empty one when the field is missing.
fn deque_or_new<T>(d: Option<VecDeque<T>>) -> (r: VecDeque<T>)
    ensures
        r@ == deque_or_empty(d),
{
    match d {
        Some(x) => x,
        None => VecDeque::new(),
    }
}

/// The words of each list of `s`.
pub open spec fn vec_views(s: Seq<Vec<u64>>) -> Seq<Seq<u64>> {
    s.map_values(|v: Vec<u64>| v@)
}

/// Signature list and lookup set after `sig` is recorded with capacity `limit`: nothing
/// changes when the set holds it; otherwise, when the list is full, its oldest entry leaves
/// both, and `sig` joins both.
pub open spec fn recorded(
    storage: Seq<Seq<char>>,
    set: Set<Seq<char>>,
    sig: Seq<char>,
    limit: usize,
) -> (Seq<Seq<char>>, Set<Seq<char>>, bool) {
    if set.contains(sig) {
        (storage, set, false)
    } else if storage.len() >= limit && storage.len() > 0 {
        (storage.drop_first().push(sig), set.remove(storage[0]).insert(sig), true)
    } else {
        (storage.push(sig), set.insert(sig), true)
    }
}

/// A recorded signature is found afterwards, whatever the capacity.
pub proof fn law_recorded_signature_found(storage: Seq<Seq<char>>, set: Set<Seq<char>>, sig: Seq<char>, limit: usize)
    ensures
        recorded(storage, set, sig, limit).1.contains(sig),
{
}

/// Recording a signature that is already known changes nothing.
pub proof fn law_known_signature_unchanged(storage: Seq<Seq<char>>, set: Set<Seq<char>>, sig: Seq<char>, limit: usize)
    requires
        set.contains(sig),
    ensures
        recorded(storage, set, sig, limit) == (storage, set, false),
{
}

/// The last `n` entries of `s` (all of them when there are fewer).
pub open spec fn last_n<T>(s: Seq<T>, n: nat) -> Seq<T> {
    if s.len() <= n {
        s
    } else {
        s.skip(s.len() - n)
    }
}

/// `s` with every entry that occurs again later dropped, order kept.
pub open spec fn keep_last_unique(s: Seq<Seq<char>>) -> Seq<Seq<char>>
    decreases s.len(),
{
    if s.len() == 0 {
        s
    } else {
        let r = keep_last_unique(s.drop_first());
        if r.contains(s[0]) {
            r
        } else {
            seq![s[0]] + r
        }
    }
}

/// Deduplication history that is saved between runs.
pub struct DedupStore {
    version: i32,
    fingerprints: VecDeque<u64>,
    media_id_signatures: VecDeque<String>,
    media_meta_signatures: VecDeque<String>,
    media_thumb_hashes: VecDeque<(u64, u64)>,
    recent_text_features: VecDeque<Vec<u64>>,
    media_id_signature_set: StrSet,
    media_meta_signature_set: StrSet,
    dirty: bool,
}

impl DedupStore {
    /// Both lookup sets well formed.
    pub closed spec fn wf(&self) -> bool {
        self.media_id_signature_set.wf() && self.media_meta_signature_set.wf()
    }

    pub closed spec fn spec_version(&self) -> i32 {
        self.version
    }

    pub closed spec fn spec_fingerprints(&self) -> Seq<u64> {
        self.fingerprints@
    }

    pub closed spec fn spec_media_ids(&self) -> Seq<Seq<char>> {
        str_views(self.media_id_signatures@)
    }

    pub closed spec fn spec_media_metas(&self) -> Seq<Seq<char>> {
        str_views(self.media_meta_signatures@)
    }

    pub closed spec fn spec_media_id_set(&self) -> Set<Seq<char>> {
        self.media_id_signature_set@
    }

    pub closed spec fn spec_media_meta_set(&self) -> Set<Seq<char>> {
        self.media_meta_signature_set@
    }

    pub closed spec fn spec_thumb_hashes(&self) -> Seq<(u64, u64)> {
        self.media_thumb_hashes@
    }

    pub closed spec fn spec_text_features(&self) -> Seq<Seq<u64>> {
        vec_views(self.recent_text_features@)
    }

    pub closed spec fn spec_dirty(&self) -> bool {
        self.dirty
    }

    /// Everything but the media-id list and set is as in `other`.
    pub open spec fn same_but_media_ids(&self, other: &Self) -> bool {
        &&& self.spec_version() == other.spec_version()
        &&& self.spec_fingerprints() == other.spec_fingerprints()
        &&& self.spec_media_metas() == other.spec_media_metas()
        &&& self.spec_media_meta_set() == other.spec_media_meta_set()
        &&& self.spec_thumb_hashes() == other.spec_thumb_hashes()
        &&& self.spec_text_features() == other.spec_text_features()
    }

    /// Everything but the media-meta list and set is as in `other`.
    pub open spec fn same_but_media_metas(&self, other: &Self) -> bool {
        &&& self.spec_version() == other.spec_version()
        &&& self.spec_fingerprints() == other.spec_fingerprints()
        &&& self.spec_media_ids() == other.spec_media_ids()
        &&& self.spec_media_id_set() == other.spec_media_id_set()
        &&& self.spec_thumb_hashes() == other.spec_thumb_hashes()
        &&& self.spec_text_features() == other.spec_text_features()
    }

    /// Everything but the fingerprints, thumbnail hashes and text features is as in `other`.
    pub open spec fn same_signatures(&self, other: &Self) -> bool {
        &&& self.spec_version() == other.spec_version()
        &&& self.spec_media_ids() == other.spec_media_ids()
        &&& self.spec_media_id_set() == other.spec_media_id_set()
        &&& self.spec_media_metas() == other.spec_media_metas()
        &&& self.spec_media_meta_set() == other.spec_media_meta_set()
    }

    /// An empty store of format version 6, nothing to save.
    pub fn new(limit: usize, media_limit: usize) -> (r: Self)
        ensures
            r.wf(),
            r.spec_version() == 6,
            r.spec_fingerprints() == Seq::<u64>::empty(),
            r.spec_media_ids() == Seq::<Seq<char>>::empty(),
            r.spec_media_metas() == Seq::<Seq<char>>::empty(),
            r.spec_media_id_set() == Set::<Seq<char>>::empty(),
            r.spec_media_meta_set() == Set::<Seq<char>>::empty(),
            r.spec_thumb_hashes() == Seq::<(u64, u64)>::empty(),
            r.spec_text_features() == Seq::<Seq<u64>>::empty(),
            !r.spec_dirty(),
    {
        let r = DedupStore {
            version: 6,
            fingerprints: VecDeque::with_capacity(limit),
            media_id_signatures: VecDeque::with_capacity(media_limit),
            media_meta_signatures: VecDeque::with_capacity(media_limit),
            media_thumb_hashes: VecDeque::with_capacity(media_limit),
            recent_text_features: VecDeque::with_capacity(limit),
            media_id_signature_set: StrSet::new(),
            media_meta_signature_set: StrSet::new(),
            dirty: false,
        };
        assert(r.spec_media_ids() =~= Seq::<Seq<char>>::empty());
        assert(r.spec_media_metas() =~= Seq::<Seq<char>>::empty());
        assert(r.spec_text_features() =~= Seq::<Seq<u64>>::empty());
        r
    }

    /// Whether a saved file of format `version` can be loaded: version 2, the format of
    /// the earlier deduplication record, and versions 5 and 6.
    pub fn is_supported_version(version: i64) -> (r: bool)
        ensures
            r == (version == 2 || version == 5 || version == 6),
    {
        version == 2 || version == 5 || version == 6
    }

    /// A store read from a deduplication file: refused unless its version (0 when it has
    /// none) is supported; otherwise rebuilt as `restore` states from its lists, each
    /// empty when the file has none.
    pub fn from_file(file: DedupFile, limit: usize, media_limit: usize) -> (r: Result<
        Self,
        DedupLoadError,
    >)
        ensures
            r is Ok <==> (file_version(file) == 2 || file_version(file) == 5 || file_version(file)
                == 6),
            match r {
                Err(DedupLoadError::UnsupportedVersion(v)) => v == file_version(file),
                Ok(s) => {
                    &&& s.wf()
                    &&& s.spec_version() == 6
                    &&& s.spec_fingerprints() == deque_or_empty(file.fingerprints)
                    &&& s.spec_media_ids() == keep_last_unique(
                        last_n(
                            str_views(deque_or_empty(file.media_id_signatures)),
                            media_limit as nat,
                        ),
                    )
                    &&& s.spec_media_id_set() == s.spec_media_ids().to_set()
                    &&& s.spec_media_metas() == keep_last_unique(
                        last_n(
                            str_views(deque_or_empty(file.media_meta_signatures)),
                            media_limit as nat,
                        ),
                    )
                    &&& s.spec_media_meta_set() == s.spec_media_metas().to_set()
                    &&& s.spec_thumb_hashes() == deque_or_empty(file.media_thumb_hashes)
                    &&& s.spec_text_features() == vec_views(
                        deque_or_empty(file.recent_text_features),
                    )
                    &&& !s.spec_dirty()
                },
            },
    {
        let version = match file.version {
            Some(v) => v,
            None => 0,
        };
        if !Self::is_supported_version(version) {
            return Err(DedupLoadError::UnsupportedVersion(version));
        }
        Ok(
            Self::restore(
                limit,
                media_limit,
                deque_or_new(file.fingerprints),
                deque_or_new(file.media_id_signatures),
                deque_or_new(file.media_meta_signatures),
                deque_or_new(file.media_thumb_hashes),
                deque_or_new(file.recent_text_features),
            ),
        )
    }

    /// A store rebuilt from saved lists: fingerprints, thumbnail hashes and text
    /// features as saved; of each signature list the last `media_limit` entries, each
    /// kept only at its last occurrence; nothing to save.
    pub fn restore(
        limit: usize,
        media_limit: usize,
        fingerprints: VecDeque<u64>,
        media_id_signatures: VecDeque<String>,
        media_meta_signatures: VecDeque<String>,
        media_thumb_hashes: VecDeque<(u64, u64)>,
        recent_text_features: VecDeque<Vec<u64>>,
    ) -> (r: Self)
        ensures
            r.wf(),
            r.spec_version() == 6,
            r.spec_fingerprints() == fingerprints@,
            r.spec_media_ids() == keep_last_unique(
                last_n(str_views(media_id_signatures@), media_limit as nat),
            ),
            r.spec_media_id_set() == r.spec_media_ids().to_set(),
            r.spec_media_metas() == keep_last_unique(
                last_n(str_views(media_meta_signatures@), media_limit as nat),
            ),
            r.spec_media_meta_set() == r.spec_media_metas().to_set(),
            r.spec_thumb_hashes() == media_thumb_hashes@,
            r.spec_text_features() == vec_views(recent_text_features@),
            !r.spec_dirty(),
    {
        let mut store = DedupStore::new(limit, media_limit);
        store.fingerprints = fingerprints;
        store.recent_text_features = recent_text_features;
        store.media_thumb_hashes = media_thumb_hashes;
        let (ids, id_set) = recent_signatures(&media_id_signatures, media_limit);
        store.media_id_signatures = ids;
        store.media_id_signature_set = id_set;
        let (metas, meta_set) = recent_signatures(&media_meta_signatures, media_limit);
        store.media_meta_signatures = metas;
        store.media_meta_signature_set = meta_set;
        store
    }

    /// The saved format version.
    pub fn version(&self) -> (r: i32)
        ensures
            r == self.spec_version(),
    {
        self.version
    }

    /// Appends a text fingerprint.
    pub fn add_fingerprint(&mut self, fp: u64)
        requires
            old(self).wf(),
        ensures
            final(self).wf(),
            final(self).spec_fingerprints() == old(self).spec_fingerprints().push(fp),
            final(self).same_signatures(old(self)),
            final(self).spec_thumb_hashes() == old(self).spec_thumb_hashes(),
            final(self).spec_text_features() == old(self).spec_text_features(),
            final(self).spec_dirty(),
    {
        self.fingerprints.push_back(fp);
        self.dirty = true;
    }

    /// Whether `fp` is among the fingerprints.
    pub fn contains_fingerprint(&self, fp: u64) -> (r: bool)
        ensures
            r == self.spec_fingerprints().contains(fp),
    {
        let mut i: usize = 0;
        while i < self.fingerprints.len()
            invariant
                i <= self.fingerprints@.len(),
                forall|j: int| 0 <= j < i ==> self.fingerprints@[j] != fp,
            decreases self.fingerprints@.len() - i,
        {
            if self.fingerprints[i] == fp {
                return true;
            }
            i = i + 1;
        }
        false
    }

    /// Whether `a` and `b` differ in at most `threshold` bits.
    pub fn hamming_distance(&self, a: u64, b: u64, threshold: usize) -> (r: bool)
        ensures
            r == (hamming(a, b) <= threshold),
    {
        let x = a ^ b;
        let mut count: usize = 0;
        let mut n = x;
        proof {
            lemma_popcount_u64(x);
        }
        while n > 0 && count <= threshold
            invariant
                count + popcount(n as nat) == popcount(x as nat),
                popcount(x as nat) <= 64,
            decreases n,
        {
            proof {
                lemma_clear_lowest(n);
                assert(n & ((n - 1) as u64) < n) by (bit_vector)
                    requires
                        n > 0,
                ;
            }
            count = count + 1;
            n = n & (n - 1);
        }
        count <= threshold
    }

    /// Records `sig` in `storage` and `set` as `recorded` states; returns whether it was new.
    fn record_signature(storage: &mut VecDeque<String>, set: &mut StrSet, sig: String, limit: usize) -> (r: bool)
        requires
            old(set).wf(),
        ensures
            final(set).wf(),
            (str_views(final(storage)@), final(set)@, r) == recorded(
                str_views(old(storage)@),
                old(set)@,
                sig@,
                limit,
            ),
    {
        if set.contains(sig.as_str()) {
            return false;
        }
        if storage.len() >= limit {
            match storage.pop_front() {
                Some(removed) => {
                    set.remove(removed.as_str());
                },
                None => {},
            }
        }
        let ghost sv = sig@;
        set.insert(sig.clone());
        storage.push_back(sig);
        proof {
            let o = str_views(old(storage)@);
            if o.len() >= limit && o.len() > 0 {
                assert(str_views(storage@) =~= o.drop_first().push(sv));
            } else {
                assert(str_views(storage@) =~= o.push(sv));
            }
        }
        true
    }

    /// Whether the media-id set holds `sig`.
    pub fn contains_media_id(&self, sig: &str) -> (r: bool)
        requires
            self.wf(),
        ensures
            r == self.spec_media_id_set().contains(sig@),
    {
        self.media_id_signature_set.contains(sig)
    }

    /// Whether the media-meta set holds `sig`.
    pub fn contains_media_meta(&self, sig: &str) -> (r: bool)
        requires
            self.wf(),
        ensures
            r == self.spec_media_meta_set().contains(sig@),
    {
        self.media_meta_signature_set.contains(sig)
    }

    /// Records a media-id signature with capacity `limit`; a new one marks the store dirty.
    pub fn add_media_id(&mut self, sig: String, limit: usize)
        requires
            old(self).wf(),
        ensures
            final(self).wf(),
            ({
                let (s, t, added) = recorded(
                    old(self).spec_media_ids(),
                    old(self).spec_media_id_set(),
                    sig@,
                    limit,
                );
                &&& final(self).spec_media_ids() == s
                &&& final(self).spec_media_id_set() == t
                &&& final(self).spec_dirty() == (old(self).spec_dirty() || added)
            }),
            final(self).same_but_media_ids(old(self)),
    {
        if Self::record_signature(
            &mut self.media_id_signatures,
            &mut self.media_id_signature_set,
            sig,
            limit,
        ) {
            self.dirty = true;
        }
    }

    /// Records a media-meta signature with capacity `limit`; a new one marks the store dirty.
    pub fn add_media_meta(&mut self, sig: String, limit: usize)
        requires
            old(self).wf(),
        ensures
            final(self).wf(),
            ({
                let (s, t, added) = recorded(
                    old(self).spec_media_metas(),
                    old(self).spec_media_meta_set(),
                    sig@,
                    limit,
                );
                &&& final(self).spec_media_metas() == s
                &&& final(self).spec_media_meta_set() == t
                &&& final(self).spec_dirty() == (old(self).spec_dirty() || added)
            }),
            final(self).same_but_media_metas(old(self)),
    {
        if Self::record_signature(
            &mut self.media_meta_signatures,
            &mut self.media_meta_signature_set,
            sig,
            limit,
        ) {
            self.dirty = true;
        }
    }

    /// Whether changes await saving.
    pub fn is_dirty(&self) -> (r: bool)
        ensures
            r == self.spec_dirty(),
    {
        self.dirty
    }

    /// Settles a save after the caller tried to write the changes out: once `written`,
    /// the changes count as saved and the result is whether there were any; a failed
    /// write leaves them awaiting the next save, and the result is false.
    pub fn settle_flush(&mut self, written: bool) -> (r: bool)
        requires
            old(self).wf(),
        ensures
            final(self).wf(),
            r == (written && old(self).spec_dirty()),
            final(self).spec_dirty() == (!written && old(self).spec_dirty()),
            final(self).same_signatures(old(self)),
            final(self).spec_fingerprints() == old(self).spec_fingerprints(),
            final(self).spec_thumb_hashes() == old(self).spec_thumb_hashes(),
            final(self).spec_text_features() == old(self).spec_text_features(),
    {
        if written {
            self.flush()
        } else {
            false
        }
    }

    /// Takes the pending-save flag: returns whether changes awaited saving and marks
    /// them saved. The caller writes the store out first, and calls this only once that
    /// succeeded.
    pub fn flush(&mut self) -> (r: bool)
        requires
            old(self).wf(),
        ensures
            final(self).wf(),
            r == old(self).spec_dirty(),
            !final(self).spec_dirty(),
            final(self).same_signatures(old(self)),
            final(self).spec_fingerprints() == old(self).spec_fingerprints(),
            final(self).spec_thumb_hashes() == old(self).spec_thumb_hashes(),
            final(self).spec_text_features() == old(self).spec_text_features(),
    {
        let was = self.dirty;
        self.dirty = false;
        was
    }

    /// A copy of the fingerprints.
    pub fn fingerprints(&self) -> (r: VecDeque<u64>)
        ensures
            r@ == self.spec_fingerprints(),
    {
        copy_u64s(&self.fingerprints)
    }

    /// A copy of the media-id signatures.
    pub fn media_id_signatures(&self) -> (r: VecDeque<String>)
        ensures
            str_views(r@) == self.spec_media_ids(),
    {
        copy_strs(&self.media_id_signatures)
    }

    /// A copy of the media-meta signatures.
    pub fn media_meta_signatures(&self) -> (r: VecDeque<String>)
        ensures
            str_views(r@) == self.spec_media_metas(),
    {
        copy_strs(&self.media_meta_signatures)
    }

    /// A copy of the thumbnail hashes.
    pub fn media_thumb_hashes(&self) -> (r: VecDeque<(u64, u64)>)
        ensures
            r@ == self.spec_thumb_hashes(),
    {
        copy_pairs(&self.media_thumb_hashes)
    }

    /// A copy of the recent text features.
    pub fn recent_text_features(&self) -> (r: VecDeque<Vec<u64>>)
        ensures
            vec_views(r@) == self.spec_text_features(),
    {
        copy_vecs(&self.recent_text_features)
    }

    /// Replaces the fingerprints; a change marks the store dirty.
    pub fn set_fingerprints(&mut self, data: VecDeque<u64>)
        requires
            old(self).wf(),
        ensures
            final(self).wf(),
            final(self).spec_fingerprints() == data@,
            final(self).spec_dirty() == (old(self).spec_dirty() || old(self).spec_fingerprints()
                != data@),
            final(self).same_signatures(old(self)),
            final(self).spec_thumb_hashes() == old(self).spec_thumb_hashes(),
            final(self).spec_text_features() == old(self).spec_text_features(),
    {
        if !eq_u64s(&self.fingerprints, &data) {
            self.fingerprints = data;
            self.dirty = true;
        }
    }

    /// Replaces the media-id signatures and rebuilds their set; a change marks the store
    /// dirty.
    pub fn set_media_id_signatures(&mut self, data: VecDeque<String>)
        requires
            old(self).wf(),
        ensures
            final(self).wf(),
            old(self).spec_media_ids() == str_views(data@) ==> *final(self) == *old(self),
            old(self).spec_media_ids() != str_views(data@) ==> {
                &&& final(self).spec_media_ids() == str_views(data@)
                &&& final(self).spec_media_id_set() == str_views(data@).to_set()
                &&& final(self).spec_dirty()
                &&& final(self).same_but_media_ids(old(self))
            },
    {
        if !eq_strs(&self.media_id_signatures, &data) {
            self.media_id_signature_set = set_of(&data);
            self.media_id_signatures = data;
            self.dirty = true;
        }
    }

    /// Replaces the media-meta signatures and rebuilds their set; a change marks the store
    /// dirty.
    pub fn set_media_meta_signatures(&mut self, data: VecDeque<String>)
        requires
            old(self).wf(),
        ensures
            final(self).wf(),
            old(self).spec_media_metas() == str_views(data@) ==> *final(self) == *old(self),
            old(self).spec_media_metas() != str_views(data@) ==> {
                &&& final(self).spec_media_metas() == str_views(data@)
                &&& final(self).spec_media_meta_set() == str_views(data@).to_set()
                &&& final(self).spec_dirty()
                &&& final(self).same_but_media_metas(old(self))
            },
    {
        if !eq_strs(&self.media_meta_signatures, &data) {
            self.media_meta_signature_set = set_of(&data);
            self.media_meta_signatures = data;
            self.dirty = true;
        }
    }

    /// Replaces the thumbnail hashes; a change marks the store dirty.
    pub fn set_media_thumb_hashes(&mut self, data: VecDeque<(u64, u64)>)
        requires
            old(self).wf(),
        ensures
            final(self).wf(),
            final(self).spec_thumb_hashes() == data@,
            final(self).spec_dirty() == (old(self).spec_dirty() || old(self).spec_thumb_hashes()
                != data@),
            final(self).same_signatures(old(self)),
            final(self).spec_fingerprints() == old(self).spec_fingerprints(),
            final(self).spec_text_features() == old(self).spec_text_features(),
    {
        if !eq_pairs(&self.media_thumb_hashes, &data) {
            self.media_thumb_hashes = data;
            self.dirty = true;
        }
    }

    /// Replaces the recent text features; a change marks the store dirty.
    pub fn set_recent_text_features(&mut self, data: VecDeque<Vec<u64>>)
        requires
            old(self).wf(),
        ensures
            final(self).wf(),
            final(self).spec_text_features() == vec_views(data@),
            final(self).spec_dirty() == (old(self).spec_dirty() || old(self).spec_text_features()
                != vec_views(data@)),
            final(self).same_signatures(old(self)),
            final(self).spec_fingerprints() == old(self).spec_fingerprints(),
            final(self).spec_thumb_hashes() == old(self).spec_thumb_hashes(),
    {
        if !eq_vecs(&self.recent_text_features, &data) {
            self.recent_text_features = data;
            self.dirty = true;
        }
    }
}

/// The last `limit` signatures of `sigs`, each kept only at its last occurrence, and
/// their set.
pub fn recent_signatures(sigs: &VecDeque<String>, limit: usize) -> (r: (VecDeque<String>, StrSet))
    ensures
        r.1.wf(),
        str_views(r.0@) == keep_last_unique(last_n(str_views(sigs@), limit as nat)),
        r.1@ == str_views(r.0@).to_set(),
{
    let n = sigs.len();
    let start = if n > limit {
        n - limit
    } else {
        0
    };
    let ghost all = str_views(sigs@);
    let ghost tail = last_n(all, limit as nat);
    assert(tail =~= all.subrange(start as int, n as int));
    let mut out: VecDeque<String> = VecDeque::new();
    let mut set = StrSet::new();
    let mut i = n;
    assert(all.subrange(n as int, n as int) =~= Seq::<Seq<char>>::empty());
    assert(str_views(out@) =~= Seq::<Seq<char>>::empty());
    while i > start
        invariant
            start <= i <= n == sigs@.len(),
            all == str_views(sigs@),
            tail =~= all.subrange(start as int, n as int),
            set.wf(),
            str_views(out@) == keep_last_unique(all.subrange(i as int, n as int)),
            forall|x: Seq<char>| set@.contains(x) <==> str_views(out@).contains(x),
        decreases i,
    {
        i = i - 1;
        let ghost rest = all.subrange(i + 1, n as int);
        assert(all.subrange(i as int, n as int).drop_first() =~= rest);
        assert(all.subrange(i as int, n as int)[0] == sigs@[i as int]@);
        let sig = &sigs[i];
        if !set.contains(sig.as_str()) {
            let ghost before = str_views(out@);
            out.push_front(sig.clone());
            set.insert(sig.clone());
            assert(str_views(out@) =~= seq![sig@] + before);
            assert forall|x: Seq<char>| set@.contains(x) <==> str_views(out@).contains(x) by {
                if x == sig@ {
                    assert(str_views(out@)[0] == x);
                } else if before.contains(x) {
                    let k = choose|k: int| 0 <= k < before.len() && before[k] == x;
                    assert(str_views(out@)[k + 1] == x);
                } else if str_views(out@).contains(x) {
                    let k = choose|k: int|
                        0 <= k < str_views(out@).len() && str_views(out@)[k] == x;
                    assert(before[k - 1] == x);
                }
            }
        }
    }
    assert(str_views(out@).to_set() =~= set@);
    (out, set)
}

/// The set of the strings of `data`.
fn set_of(data: &VecDeque<String>) -> (r: StrSet)
    ensures
        r.wf(),
        r@ == str_views(data@).to_set(),
{
    let mut set = StrSet::new();
    let mut i: usize = 0;
    while i < data.len()
        invariant
            i <= data@.len(),
            set.wf(),
            set@ =~= str_views(data@).subrange(0, i as int).to_set(),
        decreases data@.len() - i,
    {
        let ghost before = set@;
        set.insert(data[i].clone());
        proof {
            let a = str_views(data@).subrange(0, i as int);
            let b = str_views(data@).subrange(0, i + 1);
            assert(b =~= a.push(data@[i as int]@));
            assert forall|x: Seq<char>| b.contains(x) <==> a.contains(x) || x == data@[i as int]@ by {
                if b.contains(x) && x != data@[i as int]@ {
                    let k = choose|k: int| 0 <= k < b.len() && b[k] == x;
                    assert(a[k] == x);
                }
                if a.contains(x) {
                    let k = choose|k: int| 0 <= k < a.len() && a[k] == x;
                    assert(b[k] == x);
                }
                if x == data@[i as int]@ {
                    assert(b[i as int] == x);
                }
            }
            assert(set@ =~= b.to_set());
        }
        i = i + 1;
    }
    assert(str_views(data@).subrange(0, i as int) =~= str_views(data@));
    set
}

/// Whether two lists of words are equal.
fn eq_u64s(a: &VecDeque<u64>, b: &VecDeque<u64>) -> (r: bool)
    ensures
        r == (a@ == b@),
{
    if a.len() != b.len() {
        return false;
    }
    let mut i: usize = 0;
    while i < a.len()
        invariant
            a@.len() == b@.len(),
            i <= a@.len(),
            forall|j: int| 0 <= j < i ==> a@[j] == b@[j],
        decreases a@.len() - i,
    {
        if a[i] != b[i] {
            return false;
        }
        i = i + 1;
    }
    assert(a@ =~= b@);
    true
}

/// Whether two lists of strings have equal chars.
fn eq_strs(a: &VecDeque<String>, b: &VecDeque<String>) -> (r: bool)
    ensures
        r == (str_views(a@) == str_views(b@)),
{
    if a.len() != b.len() {
        assert(str_views(a@).len() != str_views(b@).len());
        return false;
    }
    let mut i: usize = 0;
    while i < a.len()
        invariant
            a@.len() == b@.len(),
            i <= a@.len(),
            forall|j: int| 0 <= j < i ==> a@[j]@ == b@[j]@,
        decreases a@.len() - i,
    {
        if !(a[i] == b[i]) {
            assert(str_views(a@)[i as int] != str_views(b@)[i as int]);
            return false;
        }
        i = i + 1;
    }
    assert(str_views(a@) =~= str_views(b@));
    true
}

/// Whether two lists of hash pairs are equal.
fn eq_pairs(a: &VecDeque<(u64, u64)>, b: &VecDeque<(u64, u64)>) -> (r: bool)
    ensures
        r == (a@ == b@),
{
    if a.len() != b.len() {
        return false;
    }
    let mut i: usize = 0;
    while i < a.len()
        invariant
            a@.len() == b@.len(),
            i <= a@.len(),
            forall|j: int| 0 <= j < i ==> a@[j] == b@[j],
        decreases a@.len() - i,
    {
        if a[i].0 != b[i].0 || a[i].1 != b[i].1 {
            return false;
        }
        i = i + 1;
    }
    assert(a@ =~= b@);
    true
}

/// Whether two words lists are equal.
pub fn eq_words(a: &Vec<u64>, b: &Vec<u64>) -> (r: bool)
    ensures
        r == (a@ == b@),
{
    if a.len() != b.len() {
        return false;
    }
    let mut i: usize = 0;
    while i < a.len()
        invariant
            a@.len() == b@.len(),
            i <= a@.len(),
            forall|j: int| 0 <= j < i ==> a@[j] == b@[j],
        decreases a@.len() - i,
    {
        if a[i] != b[i] {
            return false;
        }
        i = i + 1;
    }
    assert(a@ =~= b@);
    true
}

/// Whether two lists of word lists are equal.
fn eq_vecs(a: &VecDeque<Vec<u64>>, b: &VecDeque<Vec<u64>>) -> (r: bool)
    ensures
        r == (vec_views(a@) == vec_views(b@)),
{
    if a.len() != b.len() {
        assert(vec_views(a@).len() != vec_views(b@).len());
        return false;
    }
    let mut i: usize = 0;
    while i < a.len()
        invariant
            a@.len() == b@.len(),
            i <= a@.len(),
            forall|j: int| 0 <= j < i ==> a@[j]@ == b@[j]@,
        decreases a@.len() - i,
    {
        if !eq_words(&a[i], &b[i]) {
            assert(vec_views(a@)[i as int] != vec_views(b@)[i as int]);
            return false;
        }
        i = i + 1;
    }
    assert(vec_views(a@) =~= vec_views(b@));
    true
}

/// A copy of a list of words.
pub fn copy_u64s(a: &VecDeque<u64>) -> (r: VecDeque<u64>)
    ensures
        r@ == a@,
{
    let mut r: VecDeque<u64> = VecDeque::new();
    let mut i: usize = 0;
    while i < a.len()
        invariant
            i <= a@.len(),
            r@ =~= a@.subrange(0, i as int),
        decreases a@.len() - i,
    {
        r.push_back(a[i]);
        i = i + 1;
    }
    r
}

/// A copy of a list of strings.
pub fn copy_strs(a: &VecDeque<String>) -> (r: VecDeque<String>)
    ensures
        str_views(r@) == str_views(a@),
{
    let mut r: VecDeque<String> = VecDeque::new();
    let mut i: usize = 0;
    while i < a.len()
        invariant
            i <= a@.len(),
            str_views(r@) =~= str_views(a@).subrange(0, i as int),
        decreases a@.len() - i,
    {
        let ghost before = r@;
        r.push_back(a[i].clone());
        assert(str_views(r@) =~= str_views(before).push(a@[i as int]@));
        i = i + 1;
    }
    r
}

/// A copy of a list of hash pairs.
pub fn copy_pairs(a: &VecDeque<(u64, u64)>) -> (r: VecDeque<(u64, u64)>)
    ensures
        r@ == a@,
{
    let mut r: VecDeque<(u64, u64)> = VecDeque::new();
    let mut i: usize = 0;
    while i < a.len()
        invariant
            i <= a@.len(),
            r@ =~= a@.subrange(0, i as int),
        decreases a@.len() - i,
    {
        r.push_back((a[i].0, a[i].1));
        i = i + 1;
    }
    r
}

/// A copy of a list of words.
pub fn copy_words(a: &Vec<u64>) -> (r: Vec<u64>)
    ensures
        r@ == a@,
{
    let mut r: Vec<u64> = Vec::new();
    let mut i: usize = 0;
    while i < a.len()
        invariant
            i <= a@.len(),
            r@ =~= a@.subrange(0, i as int),
        decreases a@.len() - i,
    {
        r.push(a[i]);
        i = i + 1;
    }
    r
}

/// A copy of a list of word lists.
pub fn copy_vecs(a: &VecDeque<Vec<u64>>) -> (r: VecDeque<Vec<u64>>)
    ensures
        vec_views(r@) == vec_views(a@),
{
    let mut r: VecDeque<Vec<u64>> = VecDeque::new();
    let mut i: usize = 0;
    while i < a.len()
        invariant
            i <= a@.len(),
            vec_views(r@) =~= vec_views(a@).subrange(0, i as int),
        decreases a@.len() - i,
    {
        let ghost before = r@;
        r.push_back(copy_words(&a[i]));
        assert(vec_views(r@) =~= vec_views(before).push(a@[i as int]@));
        i = i + 1;
    }
    r
}

} // verus!
