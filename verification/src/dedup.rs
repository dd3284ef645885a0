//! Message deduplication: text fingerprints and features, media signatures and
//! thumbnail hashes, remembered for recently forwarded messages, with a staging area
//! for messages whose forwarding is not yet confirmed.
use crate::bits::hamming;
use crate::counts::{count_added, count_removed, CountTable};
use crate::dedup_store::{
    copy_pairs, copy_strs, copy_u64s, copy_vecs, copy_words, eq_words, keep_last_unique, last_n,
    recent_signatures, vec_views,
};
use crate::model::{MediaSpec, MediaView};
use crate::signature::{id_signature, media_id_signature, media_meta_signature, meta_signature};
use crate::similarity::{
    feature_hashes, fingerprint, hamming_distance, jaccard_above, jaccard_exceeds,
    lemma_len_le_utf8, simhash, simhash_of, text_feature_hashes,
};
use crate::table::{str_views, StrSet};
use crate::text::{clean_text, cleaned};
use crate::utf16::{chars_utf8_prefix_len, str_chars, utf8_units};
use std::collections::VecDeque;
use vstd::prelude::*;

verus! {

/// Limits and thresholds of the deduplicator. Ratios are in millionths.
#[derive(Debug, Clone, Copy)]
pub struct DedupConfig {
    pub limit: usize,
    pub media_limit: usize,
    pub hamming_threshold: usize,
    pub jaccard_short_threshold_ppm: u64,
    pub jaccard_long_threshold_ppm: u64,
    pub recent_text_limit: usize,
    pub thumb_phash_threshold: usize,
    pub thumb_dhash_threshold: usize,
    pub album_thumb_ratio_ppm: u64,
    pub short_text_threshold: usize,
}

/// What a message contributes to the history once it is forwarded.
pub struct DedupCandidate {
    pub fp: u64,
    pub text_features: Vec<u64>,
    pub media_id_sigs: Vec<String>,
    pub media_meta_sigs: Vec<String>,
}

/// A candidate as a mathematical value.
pub struct CandidateSpec {
    pub fp: u64,
    pub text_features: Seq<u64>,
    pub media_id_sigs: Seq<Seq<char>>,
    pub media_meta_sigs: Seq<Seq<char>>,
}

impl View for DedupCandidate {
    type V = CandidateSpec;

    open spec fn view(&self) -> CandidateSpec {
        CandidateSpec {
            fp: self.fp,
            text_features: self.text_features@,
            media_id_sigs: str_views(self.media_id_sigs@),
            media_meta_sigs: str_views(self.media_meta_sigs@),
        }
    }
}

/// A staged candidate together with the thumbnail hashes of its media.
pub struct DedupCommitInfo {
    pub candidate: DedupCandidate,
    pub thumb_hashes: Vec<(u64, u64)>,
}

/// A staged candidate as a mathematical value.
pub struct CommitSpec {
    pub candidate: CandidateSpec,
    pub thumb_hashes: Seq<(u64, u64)>,
}

impl View for DedupCommitInfo {
    type V = CommitSpec;

    open spec fn view(&self) -> CommitSpec {
        CommitSpec { candidate: self.candidate@, thumb_hashes: self.thumb_hashes@ }
    }
}

/// The views of a list of staged candidates.
pub open spec fn commit_views(s: Seq<DedupCommitInfo>) -> Seq<CommitSpec> {
    s.map_values(|i: DedupCommitInfo| i@)
}

/// The outcome of the text and metadata check.
pub enum DedupDecision {
    Duplicate,
    NeedThumb(DedupCandidate),
    Unique(DedupCandidate),
}

/// The remembered history, for saving.
pub struct DedupState {
    pub fingerprints: VecDeque<u64>,
    pub media_id_signatures: VecDeque<String>,
    pub media_meta_signatures: VecDeque<String>,
    pub media_thumb_hashes: VecDeque<(u64, u64)>,
    pub recent_text_features: VecDeque<Vec<u64>>,
}

/// The deduplicator as a mathematical value.
pub struct DedupModel {
    pub fingerprints: Seq<u64>,
    pub text_features: Seq<Seq<u64>>,
    pub media_ids: Seq<Seq<char>>,
    pub media_id_set: Set<Seq<char>>,
    pub media_metas: Seq<Seq<char>>,
    pub media_meta_set: Set<Seq<char>>,
    pub thumbs: Seq<(u64, u64)>,
    pub pending_fps: Map<u64, nat>,
    pub pending_feats: Map<Seq<u64>, nat>,
    pub pending_ids: Map<Seq<char>, nat>,
    pub pending_metas: Map<Seq<char>, nat>,
    pub pending_thumbs: Map<(u64, u64), nat>,
    pub candidates: Seq<CommitSpec>,
    pub config: DedupConfig,
}

/// Remembers recently forwarded messages and decides whether a new one repeats one.
pub struct MessageDeduplicator {
    fingerprints: VecDeque<u64>,
    recent_text_features: VecDeque<Vec<u64>>,
    media_id_signatures: VecDeque<String>,
    media_id_signature_set: StrSet,
    media_meta_signatures: VecDeque<String>,
    media_meta_signature_set: StrSet,
    media_thumb_hashes: VecDeque<(u64, u64)>,
    pending_fingerprints: CountTable<u64>,
    pending_text_features: CountTable<Vec<u64>>,
    pending_media_id_sigs: CountTable<String>,
    pending_media_meta_sigs: CountTable<String>,
    pending_thumb_hashes: CountTable<(u64, u64)>,
    pending_candidates: Vec<DedupCommitInfo>,
    config: DedupConfig,
}

impl View for MessageDeduplicator {
    type V = DedupModel;

    closed spec fn view(&self) -> DedupModel {
        DedupModel {
            fingerprints: self.fingerprints@,
            text_features: vec_views(self.recent_text_features@),
            media_ids: str_views(self.media_id_signatures@),
            media_id_set: self.media_id_signature_set@,
            media_metas: str_views(self.media_meta_signatures@),
            media_meta_set: self.media_meta_signature_set@,
            thumbs: self.media_thumb_hashes@,
            pending_fps: self.pending_fingerprints@,
            pending_feats: self.pending_text_features@,
            pending_ids: self.pending_media_id_sigs@,
            pending_metas: self.pending_media_meta_sigs@,
            pending_thumbs: self.pending_thumb_hashes@,
            candidates: commit_views(self.pending_candidates@),
            config: self.config,
        }
    }
}

// ---------------------------------------------------------------------------
// What the checks decide.
/// Fingerprints remembered or staged.
pub open spec fn known_fps(d: DedupModel) -> Set<u64> {
    d.fingerprints.to_set().union(d.pending_fps.dom())
}

/// Feature lists remembered or staged.
pub open spec fn known_feats(d: DedupModel) -> Set<Seq<u64>> {
    d.text_features.to_set().union(d.pending_feats.dom())
}

/// Thumbnail hash pairs remembered or staged.
pub open spec fn known_thumbs(d: DedupModel) -> Set<(u64, u64)> {
    d.thumbs.to_set().union(d.pending_thumbs.dom())
}

/// Whether an id signature is remembered or staged.
pub open spec fn id_known(d: DedupModel, s: Seq<char>) -> bool {
    d.media_id_set.contains(s) || d.pending_ids.contains_key(s)
}

/// Whether a metadata signature is remembered or staged.
pub open spec fn meta_known(d: DedupModel, s: Seq<char>) -> bool {
    d.media_meta_set.contains(s) || d.pending_metas.contains_key(s)
}

/// How many of the first `n` media have a known id signature (in `ids`) or a known
/// metadata signature (in `metas`).
pub open spec fn media_matched(
    d: DedupModel,
    ids: Seq<Seq<char>>,
    metas: Seq<Seq<char>>,
    n: nat,
) -> nat
    decreases n,
{
    if n == 0 {
        0
    } else {
        media_matched(d, ids, metas, (n - 1) as nat) + if id_known(d, ids[n - 1]) || meta_known(
            d,
            metas[n - 1],
        ) {
            1nat
        } else {
            0nat
        }
    }
}

/// Whether `matched` of `total` items repeat enough: any for a single item, more than
/// the album ratio otherwise.
pub open spec fn enough_matched(matched: nat, total: nat, ratio_ppm: u64) -> bool {
    if total == 1 {
        matched > 0
    } else {
        matched * 1_000_000 > ratio_ppm * total
    }
}

/// Whether the SimHash of features `feats` is within the Hamming threshold of a known
/// fingerprint.
pub open spec fn simhash_hit_on(d: DedupModel, feats: Seq<u64>) -> bool {
    let fp = simhash_of(feats);
    fp != 0 && exists|h: u64| #[trigger]
        known_fps(d).contains(h) && hamming(fp, h) <= d.config.hamming_threshold
}

/// Whether the SimHash of `text` is within the Hamming threshold of a known fingerprint.
pub open spec fn simhash_hit(d: DedupModel, text: Seq<char>) -> bool {
    simhash_hit_on(d, feature_hashes(text))
}

/// The Jaccard threshold for a text whose cleaned form has `cleaned_bytes` UTF-8 bytes:
/// the short one below 50.
pub open spec fn jaccard_threshold_on(d: DedupModel, cleaned_bytes: nat) -> u64 {
    if cleaned_bytes < 50 {
        d.config.jaccard_short_threshold_ppm
    } else {
        d.config.jaccard_long_threshold_ppm
    }
}

/// The Jaccard threshold for a text: the short one when its cleaned form has fewer than
/// 50 UTF-8 bytes.
pub open spec fn jaccard_threshold(d: DedupModel, text: Seq<char>) -> u64 {
    jaccard_threshold_on(d, utf8_units(cleaned(text)))
}

/// Whether features `feats` of a text whose cleaned form has `cleaned_bytes` UTF-8 bytes
/// are similar enough to a known feature list.
pub open spec fn jaccard_hit_on(d: DedupModel, feats: Seq<u64>, cleaned_bytes: nat) -> bool {
    feats.len() > 0 && exists|f: Seq<u64>| #[trigger]
        known_feats(d).contains(f) && jaccard_exceeds(feats, f, jaccard_threshold_on(d, cleaned_bytes))
}

/// Whether the features of `text` are similar enough to a known feature list.
pub open spec fn jaccard_hit(d: DedupModel, text: Seq<char>) -> bool {
    jaccard_hit_on(d, feature_hashes(text), utf8_units(cleaned(text)))
}

/// Whether a message of `char_count` chars, with text features `feats` and a cleaned text
/// of `cleaned_bytes` UTF-8 bytes, and with `media`, is a duplicate: a matching text
/// decides alone, except for media with a short text, where a media signature must match
/// as well; otherwise enough matching media signatures decide, and for media with a
/// short text only when the text is empty.
pub open spec fn duplicate_on(
    d: DedupModel,
    char_count: nat,
    feats: Seq<u64>,
    cleaned_bytes: nat,
    media: Seq<MediaSpec>,
) -> bool {
    let short = media.len() > 0 && char_count <= d.config.short_text_threshold;
    let text_matched = simhash_hit_on(d, feats) || jaccard_hit_on(d, feats, cleaned_bytes);
    let c = candidate_on(feats, media);
    let matched = media_matched(d, c.media_id_sigs, c.media_meta_sigs, media.len());
    let media_dup = enough_matched(matched, media.len(), d.config.album_thumb_ratio_ppm);
    if short {
        (text_matched && matched > 0) || (!text_matched && char_count == 0 && media_dup)
    } else {
        text_matched || (media.len() > 0 && media_dup)
    }
}

/// Whether the text and metadata of a message make it a duplicate, as `duplicate_on`
/// states for its text's length, features and cleaned length.
pub open spec fn is_duplicate(d: DedupModel, text: Seq<char>, media: Seq<MediaSpec>) -> bool {
    duplicate_on(d, text.len(), feature_hashes(text), utf8_units(cleaned(text)), media)
}

/// The candidate of a message with text features `feats` and `media`.
pub open spec fn candidate_on(feats: Seq<u64>, media: Seq<MediaSpec>) -> CandidateSpec {
    CandidateSpec {
        fp: simhash_of(feats),
        text_features: feats,
        media_id_sigs: media.map_values(|m: MediaSpec| media_id_signature(m)),
        media_meta_sigs: media.map_values(|m: MediaSpec| media_meta_signature(m)),
    }
}

/// The candidate that a message contributes.
pub open spec fn candidate_for(text: Seq<char>, media: Seq<MediaSpec>) -> CandidateSpec {
    candidate_on(feature_hashes(text), media)
}

/// Whether a thumbnail hash pair is near a known one.
pub open spec fn thumb_hit(d: DedupModel, h: (u64, u64)) -> bool {
    exists|t: (u64, u64)| #[trigger]
        known_thumbs(d).contains(t) && (hamming(h.0, t.0) <= d.config.thumb_phash_threshold
            || hamming(h.1, t.1) <= d.config.thumb_dhash_threshold)
}

/// How many of the first `n` hash pairs are near a known one.
pub open spec fn thumbs_matched(d: DedupModel, hs: Seq<(u64, u64)>, n: nat) -> nat
    decreases n,
{
    if n == 0 {
        0
    } else {
        thumbs_matched(d, hs, (n - 1) as nat) + if thumb_hit(d, hs[n - 1]) {
            1nat
        } else {
            0nat
        }
    }
}

/// Whether the thumbnails repeat: some match, and enough of them.
pub open spec fn thumbs_duplicate(d: DedupModel, hs: Seq<(u64, u64)>) -> bool {
    let m = thumbs_matched(d, hs, hs.len());
    hs.len() > 0 && m > 0 && enough_matched(m, hs.len(), d.config.album_thumb_ratio_ppm)
}

// ---------------------------------------------------------------------------
// How the history and the staging area change.
/// The counts after each of `ks` is added.
pub open spec fn add_all<V>(m: Map<V, nat>, ks: Seq<V>) -> Map<V, nat>
    decreases ks.len(),
{
    if ks.len() == 0 {
        m
    } else {
        count_added(add_all(m, ks.drop_last()), ks.last())
    }
}

/// The counts after each of `ks` is removed.
pub open spec fn remove_all<V>(m: Map<V, nat>, ks: Seq<V>) -> Map<V, nat>
    decreases ks.len(),
{
    if ks.len() == 0 {
        m
    } else {
        count_removed(remove_all(m, ks.drop_last()), ks.last())
    }
}

/// A list with capacity `limit` after `x` is appended unless present: the oldest entry
/// leaves when it overflows.
pub open spec fn appended_unique<T>(s: Seq<T>, x: T, limit: usize) -> Seq<T> {
    if s.contains(x) {
        s
    } else if s.len() + 1 > limit {
        s.push(x).drop_first()
    } else {
        s.push(x)
    }
}

/// Signature list and set after `sig` is recorded with capacity `limit`.
pub open spec fn record_sig(
    storage: Seq<Seq<char>>,
    set: Set<Seq<char>>,
    sig: Seq<char>,
    limit: usize,
) -> (Seq<Seq<char>>, Set<Seq<char>>) {
    if set.contains(sig) {
        (storage, set)
    } else {
        let (s1, t1) = if storage.len() >= limit && storage.len() > 0 {
            (storage.drop_first(), set.remove(storage[0]))
        } else {
            (storage, set)
        };
        let s2 = s1.push(sig);
        (if s2.len() > limit {
            s2.drop_first()
        } else {
            s2
        }, t1.insert(sig))
    }
}

/// Signature list and set after each of `sigs` is recorded in order.
pub open spec fn record_sigs(
    storage: Seq<Seq<char>>,
    set: Set<Seq<char>>,
    sigs: Seq<Seq<char>>,
    limit: usize,
) -> (Seq<Seq<char>>, Set<Seq<char>>)
    decreases sigs.len(),
{
    if sigs.len() == 0 {
        (storage, set)
    } else {
        let (s, t) = record_sigs(storage, set, sigs.drop_last(), limit);
        record_sig(s, t, sigs.last(), limit)
    }
}

/// Thumbnail hashes after `h` is recorded with capacity `limit`.
pub open spec fn record_thumb(s: Seq<(u64, u64)>, h: (u64, u64), limit: usize) -> Seq<(u64, u64)> {
    if s.contains(h) {
        s
    } else if s.len() >= limit && s.len() > 0 {
        s.drop_first().push(h)
    } else {
        s.push(h)
    }
}

/// Thumbnail hashes after each of `hs` is recorded in order.
pub open spec fn record_thumbs(s: Seq<(u64, u64)>, hs: Seq<(u64, u64)>, limit: usize) -> Seq<
    (u64, u64),
>
    decreases hs.len(),
{
    if hs.len() == 0 {
        s
    } else {
        record_thumb(record_thumbs(s, hs.drop_last(), limit), hs.last(), limit)
    }
}

/// The history after a candidate is recorded: its fingerprint (unless 0) and its
/// features (unless none) join their lists unless present, and its signatures are
/// recorded.
pub open spec fn recorded_candidate(d: DedupModel, c: CandidateSpec) -> DedupModel {
    let (ids, id_set) = record_sigs(d.media_ids, d.media_id_set, c.media_id_sigs, d.config.media_limit);
    let (metas, meta_set) = record_sigs(
        d.media_metas,
        d.media_meta_set,
        c.media_meta_sigs,
        d.config.media_limit,
    );
    DedupModel {
        fingerprints: if c.fp != 0 {
            appended_unique(d.fingerprints, c.fp, d.config.limit)
        } else {
            d.fingerprints
        },
        text_features: if c.text_features.len() > 0 {
            appended_unique(d.text_features, c.text_features, d.config.recent_text_limit)
        } else {
            d.text_features
        },
        media_ids: ids,
        media_id_set: id_set,
        media_metas: metas,
        media_meta_set: meta_set,
        thumbs: d.thumbs,
        pending_fps: d.pending_fps,
        pending_feats: d.pending_feats,
        pending_ids: d.pending_ids,
        pending_metas: d.pending_metas,
        pending_thumbs: d.pending_thumbs,
        candidates: d.candidates,
        config: d.config,
    }
}

/// The staging counts after a candidate and its hashes are staged.
pub open spec fn staged(d: DedupModel, c: CandidateSpec, hs: Seq<(u64, u64)>) -> DedupModel {
    DedupModel {
        pending_fps: if c.fp != 0 {
            count_added(d.pending_fps, c.fp)
        } else {
            d.pending_fps
        },
        pending_feats: if c.text_features.len() > 0 {
            count_added(d.pending_feats, c.text_features)
        } else {
            d.pending_feats
        },
        pending_ids: add_all(d.pending_ids, c.media_id_sigs),
        pending_metas: add_all(d.pending_metas, c.media_meta_sigs),
        pending_thumbs: add_all(d.pending_thumbs, hs),
        ..d
    }
}

/// The staging counts after a candidate and its hashes are unstaged.
pub open spec fn unstaged(d: DedupModel, c: CandidateSpec, hs: Seq<(u64, u64)>) -> DedupModel {
    DedupModel {
        pending_fps: if c.fp != 0 {
            count_removed(d.pending_fps, c.fp)
        } else {
            d.pending_fps
        },
        pending_feats: if c.text_features.len() > 0 {
            count_removed(d.pending_feats, c.text_features)
        } else {
            d.pending_feats
        },
        pending_ids: remove_all(d.pending_ids, c.media_id_sigs),
        pending_metas: remove_all(d.pending_metas, c.media_meta_sigs),
        pending_thumbs: remove_all(d.pending_thumbs, hs),
        ..d
    }
}

/// `s` without its first entry equal to `x` (unchanged when there is none).
pub open spec fn remove_first<T>(s: Seq<T>, x: T) -> Seq<T>
    decreases s.len(),
{
    if s.len() == 0 {
        s
    } else if s[0] == x {
        s.drop_first()
    } else {
        seq![s[0]] + remove_first(s.drop_first(), x)
    }
}

/// The deduplicator after a staged candidate is committed: unstaged, recorded, its
/// hashes recorded, and its first equal entry dropped from the staged list.
pub open spec fn committed(d: DedupModel, info: CommitSpec) -> DedupModel {
    let u = unstaged(d, info.candidate, info.thumb_hashes);
    let r = recorded_candidate(u, info.candidate);
    DedupModel {
        thumbs: record_thumbs(r.thumbs, info.thumb_hashes, d.config.media_limit),
        candidates: remove_first(d.candidates, info),
        ..r
    }
}

/// The deduplicator after a staged candidate is dropped.
pub open spec fn rolled_back(d: DedupModel, info: CommitSpec) -> DedupModel {
    let u = unstaged(d, info.candidate, info.thumb_hashes);
    DedupModel { candidates: remove_first(d.candidates, info), ..u }
}

/// The deduplicator after a candidate and its hashes are staged and listed as staged.
pub open spec fn staged_with(d: DedupModel, c: CandidateSpec, hs: Seq<(u64, u64)>) -> DedupModel {
    DedupModel {
        candidates: d.candidates.push(CommitSpec { candidate: c, thumb_hashes: hs }),
        ..staged(d, c, hs)
    }
}

/// The fingerprint that a staged entry counts (none when it is 0).
pub open spec fn fp_keys() -> spec_fn(CommitSpec) -> Seq<u64> {
    |i: CommitSpec|
        if i.candidate.fp != 0 {
            seq![i.candidate.fp]
        } else {
            Seq::empty()
        }
}

/// The feature list that a staged entry counts (none when it is empty).
pub open spec fn feat_keys() -> spec_fn(CommitSpec) -> Seq<Seq<u64>> {
    |i: CommitSpec|
        if i.candidate.text_features.len() > 0 {
            seq![i.candidate.text_features]
        } else {
            Seq::empty()
        }
}

/// The id signatures that a staged entry counts.
pub open spec fn id_keys() -> spec_fn(CommitSpec) -> Seq<Seq<char>> {
    |i: CommitSpec| i.candidate.media_id_sigs
}

/// The metadata signatures that a staged entry counts.
pub open spec fn meta_keys() -> spec_fn(CommitSpec) -> Seq<Seq<char>> {
    |i: CommitSpec| i.candidate.media_meta_sigs
}

/// The thumbnail hashes that a staged entry counts.
pub open spec fn thumb_keys() -> spec_fn(CommitSpec) -> Seq<(u64, u64)> {
    |i: CommitSpec| i.thumb_hashes
}

/// How often `k` occurs among the keys that `keys` gives the entries of `s`.
pub open spec fn staged_occurrences<V>(
    s: Seq<CommitSpec>,
    keys: spec_fn(CommitSpec) -> Seq<V>,
    k: V,
) -> nat
    decreases s.len(),
{
    if s.len() == 0 {
        0
    } else {
        occurrences(keys(s[0]), k) + staged_occurrences(s.drop_first(), keys, k)
    }
}

/// Every count of `m` is positive and no larger than the entries of `s` account for.
pub open spec fn counts_accounted<V>(
    m: Map<V, nat>,
    s: Seq<CommitSpec>,
    keys: spec_fn(CommitSpec) -> Seq<V>,
) -> bool {
    forall|k: V| #[trigger] m.contains_key(k) ==> 0 < m[k] <= staged_occurrences(s, keys, k)
}

/// Each staging count is accounted for by the staged candidates.
pub open spec fn pending_consistent(d: DedupModel) -> bool {
    &&& counts_accounted(d.pending_fps, d.candidates, fp_keys())
    &&& counts_accounted(d.pending_feats, d.candidates, feat_keys())
    &&& counts_accounted(d.pending_ids, d.candidates, id_keys())
    &&& counts_accounted(d.pending_metas, d.candidates, meta_keys())
    &&& counts_accounted(d.pending_thumbs, d.candidates, thumb_keys())
}

/// The deduplicator after each of `infos` is committed in order.
pub open spec fn committed_all(d: DedupModel, infos: Seq<CommitSpec>) -> DedupModel
    decreases infos.len(),
{
    if infos.len() == 0 {
        d
    } else {
        committed(committed_all(d, infos.drop_last()), infos.last())
    }
}

/// The deduplicator after each of `infos` is rolled back in order.
pub open spec fn rolled_back_all(d: DedupModel, infos: Seq<CommitSpec>) -> DedupModel
    decreases infos.len(),
{
    if infos.len() == 0 {
        d
    } else {
        rolled_back(rolled_back_all(d, infos.drop_last()), infos.last())
    }
}

/// A deduplicator with nothing remembered or staged.
pub open spec fn empty_model(config: DedupConfig) -> DedupModel {
    DedupModel {
        fingerprints: Seq::empty(),
        text_features: Seq::empty(),
        media_ids: Seq::empty(),
        media_id_set: Set::empty(),
        media_metas: Seq::empty(),
        media_meta_set: Set::empty(),
        thumbs: Seq::empty(),
        pending_fps: Map::empty(),
        pending_feats: Map::empty(),
        pending_ids: Map::empty(),
        pending_metas: Map::empty(),
        pending_thumbs: Map::empty(),
        candidates: Seq::empty(),
        config,
    }
}

/// A deduplicator rebuilt from a saved history: the last `limit` fingerprints, the last
/// `recent_text_limit` feature lists and `media_limit` hash pairs, and of each signature
/// list the last `media_limit` entries, each kept only at its last occurrence.
pub open spec fn restored_model(
    config: DedupConfig,
    fps: Seq<u64>,
    ids: Seq<Seq<char>>,
    metas: Seq<Seq<char>>,
    thumbs: Seq<(u64, u64)>,
    feats: Seq<Seq<u64>>,
) -> DedupModel {
    let kept_ids = keep_last_unique(last_n(ids, config.media_limit as nat));
    let kept_metas = keep_last_unique(last_n(metas, config.media_limit as nat));
    DedupModel {
        fingerprints: last_n(fps, config.limit as nat),
        text_features: last_n(feats, config.recent_text_limit as nat),
        media_ids: kept_ids,
        media_id_set: kept_ids.to_set(),
        media_metas: kept_metas,
        media_meta_set: kept_metas.to_set(),
        thumbs: last_n(thumbs, config.media_limit as nat),
        ..empty_model(config)
    }
}

/// Whether two string lists have equal chars.
fn eq_string_vecs(a: &Vec<String>, b: &Vec<String>) -> (r: bool)
    ensures
        r == (str_views(a@) == str_views(b@)),
{
    if a.len() != b.len() {
        assert(str_views(a@).len() != str_views(b@).len());
        return false;
    }
    let mut i: usize = 0;
    while i < a.len()
        invariant
            a@.len() == b@.len(),
            i <= a@.len(),
            forall|j: int| 0 <= j < i ==> a@[j]@ == b@[j]@,
        decreases a@.len() - i,
    {
        if !(a[i] == b[i]) {
            assert(str_views(a@)[i as int] != str_views(b@)[i as int]);
            return false;
        }
        i = i + 1;
    }
    assert(str_views(a@) =~= str_views(b@));
    true
}

/// Whether two lists of hash pairs are equal.
fn eq_pair_vecs(a: &Vec<(u64, u64)>, b: &Vec<(u64, u64)>) -> (r: bool)
    ensures
        r == (a@ == b@),
{
    if a.len() != b.len() {
        return false;
    }
    let mut i: usize = 0;
    while i < a.len()
        invariant
            a@.len() == b@.len(),
            i <= a@.len(),
            forall|j: int| 0 <= j < i ==> a@[j] == b@[j],
        decreases a@.len() - i,
    {
        if a[i].0 != b[i].0 || a[i].1 != b[i].1 {
            return false;
        }
        i = i + 1;
    }
    assert(a@ =~= b@);
    true
}

/// A copy of a string list.
fn copy_string_vec(a: &Vec<String>) -> (r: Vec<String>)
    ensures
        str_views(r@) == str_views(a@),
{
    let mut r: Vec<String> = Vec::new();
    let mut i: usize = 0;
    while i < a.len()
        invariant
            i <= a@.len(),
            str_views(r@) =~= str_views(a@).subrange(0, i as int),
        decreases a@.len() - i,
    {
        let ghost before = r@;
        r.push(a[i].clone());
        assert(str_views(r@) =~= str_views(before).push(a@[i as int]@));
        i = i + 1;
    }
    r
}

/// A copy of a list of hash pairs.
fn copy_pair_vec(a: &Vec<(u64, u64)>) -> (r: Vec<(u64, u64)>)
    ensures
        r@ == a@,
{
    let mut r: Vec<(u64, u64)> = Vec::new();
    let mut i: usize = 0;
    while i < a.len()
        invariant
            i <= a@.len(),
            r@ =~= a@.subrange(0, i as int),
        decreases a@.len() - i,
    {
        r.push((a[i].0, a[i].1));
        i = i + 1;
    }
    r
}

impl DedupCandidate {
    /// A field-for-field copy.
    pub fn duplicate(&self) -> (r: Self)
        ensures
            r@ == self@,
    {
        DedupCandidate {
            fp: self.fp,
            text_features: copy_words(&self.text_features),
            media_id_sigs: copy_string_vec(&self.media_id_sigs),
            media_meta_sigs: copy_string_vec(&self.media_meta_sigs),
        }
    }
}

impl DedupCommitInfo {
    /// A field-for-field copy.
    pub fn duplicate(&self) -> (r: Self)
        ensures
            r@ == self@,
    {
        DedupCommitInfo {
            candidate: self.candidate.duplicate(),
            thumb_hashes: copy_pair_vec(&self.thumb_hashes),
        }
    }

    /// Whether the two have equal views.
    pub fn same(&self, other: &Self) -> (r: bool)
        ensures
            r == (self@ == other@),
    {
        let r = self.candidate.fp == other.candidate.fp && eq_words(
            &self.candidate.text_features,
            &other.candidate.text_features,
        ) && eq_string_vecs(&self.candidate.media_id_sigs, &other.candidate.media_id_sigs)
            && eq_string_vecs(&self.candidate.media_meta_sigs, &other.candidate.media_meta_sigs)
            && eq_pair_vecs(&self.thumb_hashes, &other.thumb_hashes);
        proof {
            if self@ == other@ {
                assert(self@.candidate.text_features == other@.candidate.text_features);
            }
        }
        r
    }
}

/// The id signatures of `media`, in order.
fn id_signatures(media: &[MediaView]) -> (r: Vec<String>)
    ensures
        str_views(r@) == media@.map_values(|m: MediaView| m@).map_values(
            |m: MediaSpec| media_id_signature(m),
        ),
{
    let mut r: Vec<String> = Vec::new();
    let mut i: usize = 0;
    while i < media.len()
        invariant
            i <= media@.len(),
            str_views(r@) =~= media@.map_values(|m: MediaView| m@).map_values(
                |m: MediaSpec| media_id_signature(m),
            ).take(i as int),
        decreases media@.len() - i,
    {
        let ghost before = r@;
        r.push(id_signature(&media[i]));
        assert(str_views(r@) =~= str_views(before).push(media_id_signature(media@[i as int]@)));
        i = i + 1;
    }
    r
}

/// The metadata signatures of `media`, in order.
fn meta_signatures(media: &[MediaView]) -> (r: Vec<String>)
    ensures
        str_views(r@) == media@.map_values(|m: MediaView| m@).map_values(
            |m: MediaSpec| media_meta_signature(m),
        ),
{
    let mut r: Vec<String> = Vec::new();
    let mut i: usize = 0;
    while i < media.len()
        invariant
            i <= media@.len(),
            str_views(r@) =~= media@.map_values(|m: MediaView| m@).map_values(
                |m: MediaSpec| media_meta_signature(m),
            ).take(i as int),
        decreases media@.len() - i,
    {
        let ghost before = r@;
        r.push(meta_signature(&media[i]));
        assert(str_views(r@) =~= str_views(before).push(media_meta_signature(media@[i as int]@)));
        i = i + 1;
    }
    r
}

/// The views of a media list.
pub open spec fn media_views(media: Seq<MediaView>) -> Seq<MediaSpec> {
    media.map_values(|m: MediaView| m@)
}

impl MessageDeduplicator {
    /// Well formed, and each staging count accounted for by the staged candidates.
    pub closed spec fn wf(&self) -> bool {
        self.tables_wf() && pending_consistent(self@)
    }

    /// Lookup sets and staging tables well formed.
    closed spec fn tables_wf(&self) -> bool {
        &&& self.media_id_signature_set.wf()
        &&& self.media_meta_signature_set.wf()
        &&& self.pending_fingerprints.wf()
        &&& self.pending_text_features.wf()
        &&& self.pending_media_id_sigs.wf()
        &&& self.pending_media_meta_sigs.wf()
        &&& self.pending_thumb_hashes.wf()
    }

    /// Nothing remembered or staged.
    pub fn new(config: DedupConfig) -> (r: Self)
        ensures
            r.wf(),
            r@ == empty_model(config),
    {
        Self::from_snapshot(config, None)
    }

    /// A deduplicator with `config`, rebuilt from `snapshot` as `restored_model` states
    /// when there is one.
    pub fn from_snapshot(config: DedupConfig, snapshot: Option<DedupState>) -> (r: Self)
        ensures
            r.wf(),
            match snapshot {
                None => r@ == empty_model(config),
                Some(s) => r@ == restored_model(
                    config,
                    s.fingerprints@,
                    str_views(s.media_id_signatures@),
                    str_views(s.media_meta_signatures@),
                    s.media_thumb_hashes@,
                    vec_views(s.recent_text_features@),
                ),
            },
    {
        let mut this = MessageDeduplicator {
            fingerprints: VecDeque::new(),
            recent_text_features: VecDeque::new(),
            media_id_signatures: VecDeque::new(),
            media_id_signature_set: StrSet::new(),
            media_meta_signatures: VecDeque::new(),
            media_meta_signature_set: StrSet::new(),
            media_thumb_hashes: VecDeque::new(),
            pending_fingerprints: CountTable::new(),
            pending_text_features: CountTable::new(),
            pending_media_id_sigs: CountTable::new(),
            pending_media_meta_sigs: CountTable::new(),
            pending_thumb_hashes: CountTable::new(),
            pending_candidates: Vec::new(),
            config,
        };
        assert(commit_views(this.pending_candidates@) =~= Seq::<CommitSpec>::empty());
        assert(str_views(this.media_id_signatures@) =~= Seq::<Seq<char>>::empty());
        assert(str_views(this.media_meta_signatures@) =~= Seq::<Seq<char>>::empty());
        assert(vec_views(this.recent_text_features@) =~= Seq::<Seq<u64>>::empty());
        match snapshot {
            Some(snap) => {
                this.restore_snapshot(snap);
            },
            None => {},
        }
        this
    }

    fn restore_snapshot(&mut self, snap: DedupState)
        requires
            old(self).wf(),
            old(self)@ == empty_model(old(self)@.config),
        ensures
            final(self).wf(),
            final(self)@ == restored_model(
                old(self)@.config,
                snap.fingerprints@,
                str_views(snap.media_id_signatures@),
                str_views(snap.media_meta_signatures@),
                snap.media_thumb_hashes@,
                vec_views(snap.recent_text_features@),
            ),
    {
        self.fingerprints = last_u64s(&snap.fingerprints, self.config.limit);
        let (ids, id_set) = recent_signatures(&snap.media_id_signatures, self.config.media_limit);
        self.media_id_signatures = ids;
        self.media_id_signature_set = id_set;
        let (metas, meta_set) = recent_signatures(
            &snap.media_meta_signatures,
            self.config.media_limit,
        );
        self.media_meta_signatures = metas;
        self.media_meta_signature_set = meta_set;
        self.media_thumb_hashes = last_pairs(&snap.media_thumb_hashes, self.config.media_limit);
        self.recent_text_features = last_vecs(
            &snap.recent_text_features,
            self.config.recent_text_limit,
        );
    }

    /// A copy of the remembered history.
    pub fn snapshot(&self) -> (r: DedupState)
        ensures
            r.fingerprints@ == self@.fingerprints,
            str_views(r.media_id_signatures@) == self@.media_ids,
            str_views(r.media_meta_signatures@) == self@.media_metas,
            r.media_thumb_hashes@ == self@.thumbs,
            vec_views(r.recent_text_features@) == self@.text_features,
    {
        DedupState {
            fingerprints: copy_u64s(&self.fingerprints),
            media_id_signatures: copy_strs(&self.media_id_signatures),
            media_meta_signatures: copy_strs(&self.media_meta_signatures),
            media_thumb_hashes: copy_pairs(&self.media_thumb_hashes),
            recent_text_features: copy_vecs(&self.recent_text_features),
        }
    }

    /// Whether an id signature is remembered or staged.
    fn has_media_id_signature(&self, sig: &String) -> (r: bool)
        requires
            self.wf(),
        ensures
            r == id_known(self@, sig@),
    {
        self.media_id_signature_set.contains(sig.as_str()) || self.pending_media_id_sigs.contains(
            sig,
        )
    }

    /// Whether a metadata signature is remembered or staged.
    fn has_media_meta_signature(&self, sig: &String) -> (r: bool)
        requires
            self.wf(),
        ensures
            r == meta_known(self@, sig@),
    {
        self.media_meta_signature_set.contains(sig.as_str())
            || self.pending_media_meta_sigs.contains(sig)
    }

    /// Whether `fp` is within the Hamming threshold of a known fingerprint.
    fn fingerprint_hit(&self, fp: u64) -> (r: bool)
        requires
            self.wf(),
        ensures
            r == exists|h: u64| #[trigger]
                known_fps(self@).contains(h) && hamming(fp, h) <= self@.config.hamming_threshold,
    {
        let thr = self.config.hamming_threshold;
        let mut i: usize = 0;
        while i < self.fingerprints.len()
            invariant
                i <= self.fingerprints@.len(),
                thr == self@.config.hamming_threshold,
                forall|j: int| 0 <= j < i ==> hamming(fp, #[trigger] self.fingerprints@[j]) > thr,
            decreases self.fingerprints@.len() - i,
        {
            let h = self.fingerprints[i];
            if hamming_distance(fp, h) as usize <= thr {
                assert(known_fps(self@).contains(h));
                return true;
            }
            i = i + 1;
        }
        let n = self.pending_fingerprints.len();
        let mut k: usize = 0;
        while k < n
            invariant
                self.wf(),
                n == self.pending_fingerprints.spec_len(),
                k <= n,
                thr == self@.config.hamming_threshold,
                forall|j: int| 0 <= j < k ==> hamming(fp, self.pending_fingerprints.key_at(j)) > thr,
            decreases n - k,
        {
            let h = *self.pending_fingerprints.key(k);
            if hamming_distance(fp, h) as usize <= thr {
                proof {
                    self.pending_fingerprints.lemma_keys();
                    assert(self.pending_fingerprints@.contains_key(h));
                    assert(known_fps(self@).contains(h));
                }
                return true;
            }
            k = k + 1;
        }
        proof {
            self.pending_fingerprints.lemma_keys();
            assert forall|h: u64| #[trigger] known_fps(self@).contains(h) implies hamming(fp, h)
                > thr by {
                if self.fingerprints@.contains(h) {
                    let j = choose|j: int|
                        0 <= j < self.fingerprints@.len() && self.fingerprints@[j] == h;
                    assert(hamming(fp, self.fingerprints@[j]) > thr);
                } else {
                    assert(self.pending_fingerprints@.contains_key(h));
                    let j = choose|j: int|
                        0 <= j < self.pending_fingerprints.spec_len()
                            && self.pending_fingerprints.key_at(j) == h;
                    assert(hamming(fp, self.pending_fingerprints.key_at(j)) > thr);
                }
            }
        }
        false
    }

    /// Whether `feats` is similar enough to a known feature list.
    fn features_hit(&self, feats: &Vec<u64>, threshold_ppm: u64) -> (r: bool)
        requires
            self.wf(),
        ensures
            r == exists|f: Seq<u64>| #[trigger]
                known_feats(self@).contains(f) && jaccard_exceeds(feats@, f, threshold_ppm),
    {
        let mut i: usize = 0;
        while i < self.recent_text_features.len()
            invariant
                i <= self.recent_text_features@.len(),
                forall|j: int|
                    0 <= j < i ==> !jaccard_exceeds(
                        feats@,
                        #[trigger] self.recent_text_features@[j]@,
                        threshold_ppm,
                    ),
            decreases self.recent_text_features@.len() - i,
        {
            if jaccard_above(feats, &self.recent_text_features[i], threshold_ppm) {
                proof {
                    let f = self.recent_text_features@[i as int]@;
                    assert(vec_views(self.recent_text_features@)[i as int] == f);
                    assert(known_feats(self@).contains(f));
                }
                return true;
            }
            i = i + 1;
        }
        let n = self.pending_text_features.len();
        let mut k: usize = 0;
        while k < n
            invariant
                self.wf(),
                n == self.pending_text_features.spec_len(),
                k <= n,
                forall|j: int|
                    0 <= j < k ==> !jaccard_exceeds(
                        feats@,
                        self.pending_text_features.key_at(j),
                        threshold_ppm,
                    ),
            decreases n - k,
        {
            if jaccard_above(feats, self.pending_text_features.key(k), threshold_ppm) {
                proof {
                    self.pending_text_features.lemma_keys();
                    let f = self.pending_text_features.key_at(k as int);
                    assert(self.pending_text_features@.contains_key(f));
                    assert(known_feats(self@).contains(f));
                }
                return true;
            }
            k = k + 1;
        }
        proof {
            self.pending_text_features.lemma_keys();
            assert forall|f: Seq<u64>| #[trigger] known_feats(self@).contains(f) implies !jaccard_exceeds(
                feats@,
                f,
                threshold_ppm,
            ) by {
                if self@.text_features.contains(f) {
                    let j = choose|j: int|
                        0 <= j < self@.text_features.len() && self@.text_features[j] == f;
                    assert(self.recent_text_features@[j]@ == f);
                } else {
                    assert(self.pending_text_features@.contains_key(f));
                    let j = choose|j: int|
                        0 <= j < self.pending_text_features.spec_len()
                            && self.pending_text_features.key_at(j) == f;
                    assert(!jaccard_exceeds(feats@, self.pending_text_features.key_at(j), threshold_ppm));
                }
            }
        }
        false
    }

    /// How many media have a known id or metadata signature.
    fn count_matched(&self, ids: &Vec<String>, metas: &Vec<String>) -> (r: usize)
        requires
            self.wf(),
            ids@.len() == metas@.len(),
        ensures
            r == media_matched(self@, str_views(ids@), str_views(metas@), ids@.len() as nat),
    {
        let mut matched: usize = 0;
        let mut i: usize = 0;
        while i < ids.len()
            invariant
                self.wf(),
                ids@.len() == metas@.len(),
                i <= ids@.len(),
                matched == media_matched(self@, str_views(ids@), str_views(metas@), i as nat),
                matched <= i,
            decreases ids@.len() - i,
        {
            if self.has_media_id_signature(&ids[i]) || self.has_media_meta_signature(&metas[i]) {
                matched = matched + 1;
            }
            i = i + 1;
        }
        matched
    }

    /// Decides on the text and metadata of a message: `Duplicate` exactly when
    /// `is_duplicate` holds; otherwise the message's candidate, which still needs a
    /// thumbnail check when it has media.
    pub fn check_text_and_meta(&self, text: &str, media_list: &[MediaView]) -> (r: DedupDecision)
        requires
            self.wf(),
        ensures
            match r {
                DedupDecision::Duplicate => is_duplicate(self@, text@, media_views(media_list@)),
                DedupDecision::NeedThumb(c) => !is_duplicate(
                    self@,
                    text@,
                    media_views(media_list@),
                ) && media_list@.len() > 0 && c@ == candidate_for(
                    text@,
                    media_views(media_list@),
                ),
                DedupDecision::Unique(c) => !is_duplicate(self@, text@, media_views(media_list@))
                    && media_list@.len() == 0 && c@ == candidate_for(
                    text@,
                    media_views(media_list@),
                ),
            },
    {
        let text_chars = str_chars(text);
        let text_features = text_feature_hashes(text);
        let cleaned_text = clean_text(text);
        let cs = str_chars(cleaned_text.as_str());
        let byte_len = chars_utf8_prefix_len(cs.as_slice(), cs.len());
        assert(cs@.take(cs@.len() as int) =~= cs@);
        proof {
            lemma_len_le_utf8(cs@);
            assert(text_features@.len() <= cs@.len() || text_features@.len() <= 1);
        }
        self.check_features(text_chars.len(), text_features, byte_len, media_list)
    }

    /// Decides on a message of `char_count` chars with text features `text_features`, a
    /// cleaned text of `cleaned_bytes` UTF-8 bytes, and `media_list`: `Duplicate` exactly
    /// when `duplicate_on` holds; otherwise the message's candidate, which still needs a
    /// thumbnail check when it has media.
    pub fn check_features(
        &self,
        char_count: usize,
        text_features: Vec<u64>,
        cleaned_bytes: usize,
        media_list: &[MediaView],
    ) -> (r: DedupDecision)
        requires
            self.wf(),
            text_features@.len() <= isize::MAX,
        ensures
            match r {
                DedupDecision::Duplicate => duplicate_on(
                    self@,
                    char_count as nat,
                    text_features@,
                    cleaned_bytes as nat,
                    media_views(media_list@),
                ),
                DedupDecision::NeedThumb(c) => !duplicate_on(
                    self@,
                    char_count as nat,
                    text_features@,
                    cleaned_bytes as nat,
                    media_views(media_list@),
                ) && media_list@.len() > 0 && c@ == candidate_on(
                    text_features@,
                    media_views(media_list@),
                ),
                DedupDecision::Unique(c) => !duplicate_on(
                    self@,
                    char_count as nat,
                    text_features@,
                    cleaned_bytes as nat,
                    media_views(media_list@),
                ) && media_list@.len() == 0 && c@ == candidate_on(
                    text_features@,
                    media_views(media_list@),
                ),
            },
    {
        let ghost media = media_views(media_list@);
        let ghost feats = text_features@;
        let media_id_sigs = id_signatures(media_list);
        let media_meta_sigs = meta_signatures(media_list);
        let text_char_count = char_count;
        let total = media_list.len();
        let is_short = total > 0 && text_char_count <= self.config.short_text_threshold;
        let mut text_matched = false;
        let fp = simhash(&text_features);
        let mut sim = false;
        if fp != 0 {
            sim = self.fingerprint_hit(fp);
        }
        assert(sim == simhash_hit_on(self@, feats));
        if sim {
            if is_short {
                text_matched = true;
            } else {
                return DedupDecision::Duplicate;
            }
        }
        if !text_matched && text_features.len() > 0 {
            let threshold = if cleaned_bytes < 50 {
                self.config.jaccard_short_threshold_ppm
            } else {
                self.config.jaccard_long_threshold_ppm
            };
            let jac = self.features_hit(&text_features, threshold);
            assert(jac == jaccard_hit_on(self@, feats, cleaned_bytes as nat));
            if jac {
                if is_short {
                    text_matched = true;
                } else {
                    return DedupDecision::Duplicate;
                }
            }
        }
        let ghost c = candidate_on(feats, media);
        assert(str_views(media_id_sigs@) == c.media_id_sigs);
        assert(str_views(media_meta_sigs@) == c.media_meta_sigs);
        assert(media_id_sigs@.len() == str_views(media_id_sigs@).len());
        assert(media_meta_sigs@.len() == str_views(media_meta_sigs@).len());
        let matched = self.count_matched(&media_id_sigs, &media_meta_sigs);
        proof {
            let a = self.config.album_thumb_ratio_ppm as u128;
            let b = total as u128;
            assert(a * b <= 0xffff_ffff_ffff_ffff * 0xffff_ffff_ffff_ffff) by (nonlinear_arith)
                requires
                    a <= 0xffff_ffff_ffff_ffff,
                    b <= 0xffff_ffff_ffff_ffff,
            ;
            assert((matched as u128) * 1_000_000 <= 0xffff_ffff_ffff_ffff * 1_000_000) by (
            nonlinear_arith)
                requires
                    matched <= 0xffff_ffff_ffff_ffff,
            ;
        }
        let enough = if total == 1 {
            matched > 0
        } else {
            (matched as u128) * 1_000_000 > (self.config.album_thumb_ratio_ppm as u128) * (
            total as u128)
        };
        if is_short && text_matched && matched > 0 {
            return DedupDecision::Duplicate;
        }
        if is_short && !text_matched && text_char_count == 0 && enough {
            return DedupDecision::Duplicate;
        }
        if total > 0 && !is_short && enough {
            return DedupDecision::Duplicate;
        }
        let candidate = DedupCandidate {
            fp,
            text_features,
            media_id_sigs,
            media_meta_sigs,
        };
        if total == 0 {
            DedupDecision::Unique(candidate)
        } else {
            DedupDecision::NeedThumb(candidate)
        }
    }
}

/// The last `limit` entries of `s`.
fn last_u64s(s: &VecDeque<u64>, limit: usize) -> (r: VecDeque<u64>)
    ensures
        r@ == last_n(s@, limit as nat),
{
    let n = s.len();
    let start = if n > limit {
        n - limit
    } else {
        0
    };
    let mut r: VecDeque<u64> = VecDeque::new();
    let mut i = start;
    while i < n
        invariant
            start <= i <= n == s@.len(),
            r@ =~= s@.subrange(start as int, i as int),
        decreases n - i,
    {
        r.push_back(s[i]);
        i = i + 1;
    }
    assert(last_n(s@, limit as nat) =~= s@.subrange(start as int, n as int));
    r
}

/// The last `limit` entries of `s`.
fn last_pairs(s: &VecDeque<(u64, u64)>, limit: usize) -> (r: VecDeque<(u64, u64)>)
    ensures
        r@ == last_n(s@, limit as nat),
{
    let n = s.len();
    let start = if n > limit {
        n - limit
    } else {
        0
    };
    let mut r: VecDeque<(u64, u64)> = VecDeque::new();
    let mut i = start;
    while i < n
        invariant
            start <= i <= n == s@.len(),
            r@ =~= s@.subrange(start as int, i as int),
        decreases n - i,
    {
        r.push_back((s[i].0, s[i].1));
        i = i + 1;
    }
    assert(last_n(s@, limit as nat) =~= s@.subrange(start as int, n as int));
    r
}

/// The last `limit` entries of `s`.
fn last_vecs(s: &VecDeque<Vec<u64>>, limit: usize) -> (r: VecDeque<Vec<u64>>)
    ensures
        vec_views(r@) == last_n(vec_views(s@), limit as nat),
{
    let n = s.len();
    let start = if n > limit {
        n - limit
    } else {
        0
    };
    let mut r: VecDeque<Vec<u64>> = VecDeque::new();
    let mut i = start;
    while i < n
        invariant
            start <= i <= n == s@.len(),
            vec_views(r@) =~= vec_views(s@).subrange(start as int, i as int),
        decreases n - i,
    {
        let ghost before = r@;
        r.push_back(copy_words(&s[i]));
        assert(vec_views(r@) =~= vec_views(before).push(s@[i as int]@));
        i = i + 1;
    }
    assert(last_n(vec_views(s@), limit as nat) =~= vec_views(s@).subrange(start as int, n as int));
    r
}

/// The views of a list of keys.
pub open spec fn key_views<K: View>(ks: Seq<K>) -> Seq<K::V> {
    ks.map_values(|k: K| k@)
}

/// Adds each of `ks` to `t`, in order.
fn add_keys<K: crate::counts::Keyed>(t: &mut CountTable<K>, ks: &Vec<K>)
    requires
        old(t).wf(),
    ensures
        final(t).wf(),
        final(t)@ == add_all(old(t)@, key_views(ks@)),
{
    let mut i: usize = 0;
    while i < ks.len()
        invariant
            t.wf(),
            i <= ks@.len(),
            t@ == add_all(old(t)@, key_views(ks@).take(i as int)),
        decreases ks@.len() - i,
    {
        t.add(&ks[i]);
        assert(key_views(ks@).take(i + 1).drop_last() =~= key_views(ks@).take(i as int));
        i = i + 1;
    }
    assert(key_views(ks@).take(ks@.len() as int) =~= key_views(ks@));
}

/// Removes each of `ks` from `t`, in order.
fn remove_keys<K: crate::counts::Keyed>(t: &mut CountTable<K>, ks: &Vec<K>)
    requires
        old(t).wf(),
    ensures
        final(t).wf(),
        final(t)@ == remove_all(old(t)@, key_views(ks@)),
{
    let mut i: usize = 0;
    while i < ks.len()
        invariant
            t.wf(),
            i <= ks@.len(),
            t@ == remove_all(old(t)@, key_views(ks@).take(i as int)),
        decreases ks@.len() - i,
    {
        t.remove(&ks[i]);
        assert(key_views(ks@).take(i + 1).drop_last() =~= key_views(ks@).take(i as int));
        i = i + 1;
    }
    assert(key_views(ks@).take(ks@.len() as int) =~= key_views(ks@));
}

/// Appends `x` to `s` unless present, as `appended_unique` states.
fn append_unique_u64(s: &mut VecDeque<u64>, x: u64, limit: usize)
    ensures
        final(s)@ == appended_unique(old(s)@, x, limit),
{
    let mut i: usize = 0;
    while i < s.len()
        invariant
            i <= s@.len(),
            s@ == old(s)@,
            forall|j: int| 0 <= j < i ==> s@[j] != x,
        decreases s@.len() - i,
    {
        if s[i] == x {
            return ;
        }
        i = i + 1;
    }
    s.push_back(x);
    if s.len() > limit {
        s.pop_front();
    }
}

/// Appends `x` to `s` unless an equal list is present, as `appended_unique` states.
fn append_unique_vec(s: &mut VecDeque<Vec<u64>>, x: Vec<u64>, limit: usize)
    ensures
        vec_views(final(s)@) == appended_unique(vec_views(old(s)@), x@, limit),
{
    let mut i: usize = 0;
    while i < s.len()
        invariant
            i <= s@.len(),
            s@ == old(s)@,
            forall|j: int| 0 <= j < i ==> s@[j]@ != x@,
        decreases s@.len() - i,
    {
        if eq_words(&s[i], &x) {
            assert(vec_views(s@)[i as int] == x@);
            return ;
        }
        i = i + 1;
    }
    assert(!vec_views(s@).contains(x@)) by {
        if vec_views(s@).contains(x@) {
            let j = choose|j: int| 0 <= j < vec_views(s@).len() && vec_views(s@)[j] == x@;
            assert(s@[j]@ == x@);
        }
    }
    let ghost xv = x@;
    s.push_back(x);
    assert(vec_views(s@) =~= vec_views(old(s)@).push(xv));
    if s.len() > limit {
        s.pop_front();
        assert(vec_views(s@) =~= vec_views(old(s)@).push(xv).drop_first());
    }
}

/// Records `sig` in `storage` and `set`, as `record_sig` states.
fn record_media(storage: &mut VecDeque<String>, set: &mut StrSet, sig: String, limit: usize)
    requires
        old(set).wf(),
    ensures
        final(set).wf(),
        (str_views(final(storage)@), final(set)@) == record_sig(
            str_views(old(storage)@),
            old(set)@,
            sig@,
            limit,
        ),
{
    if set.contains(sig.as_str()) {
        return ;
    }
    let ghost o = str_views(storage@);
    if storage.len() >= limit {
        match storage.pop_front() {
            Some(removed) => {
                set.remove(removed.as_str());
            },
            None => {},
        }
    }
    let ghost s1 = str_views(storage@);
    assert(o.len() >= limit && o.len() > 0 ==> s1 =~= o.drop_first());
    let ghost sv = sig@;
    set.insert(sig.clone());
    storage.push_back(sig);
    assert(str_views(storage@) =~= s1.push(sv));
    if storage.len() > limit {
        storage.pop_front();
        assert(str_views(storage@) =~= s1.push(sv).drop_first());
    }
}

/// Records each of `sigs` in `storage` and `set`, in order, as `record_sigs` states.
fn record_all_media(
    storage: &mut VecDeque<String>,
    set: &mut StrSet,
    sigs: &Vec<String>,
    limit: usize,
)
    requires
        old(set).wf(),
    ensures
        final(set).wf(),
        (str_views(final(storage)@), final(set)@) == record_sigs(
            str_views(old(storage)@),
            old(set)@,
            str_views(sigs@),
            limit,
        ),
{
    let ghost all = str_views(sigs@);
    let mut i: usize = 0;
    while i < sigs.len()
        invariant
            set.wf(),
            i <= sigs@.len(),
            all == str_views(sigs@),
            (str_views(storage@), set@) == record_sigs(
                str_views(old(storage)@),
                old(set)@,
                all.take(i as int),
                limit,
            ),
        decreases sigs@.len() - i,
    {
        record_media(storage, set, sigs[i].clone(), limit);
        assert(all.take(i + 1).drop_last() =~= all.take(i as int));
        i = i + 1;
    }
    assert(all.take(i as int) =~= all);
}

/// Removing the first entry equal to `x`, found at `i`.
proof fn lemma_remove_first(s: Seq<CommitSpec>, x: CommitSpec, i: int)
    requires
        0 <= i < s.len(),
        s[i] == x,
        forall|j: int| 0 <= j < i ==> s[j] != x,
    ensures
        remove_first(s, x) == s.take(i) + s.skip(i + 1),
    decreases i,
{
    if i == 0 {
        assert(s.take(0) + s.skip(1) =~= s.drop_first());
    } else {
        lemma_remove_first(s.drop_first(), x, i - 1);
        assert(seq![s[0]] + (s.drop_first().take(i - 1) + s.drop_first().skip(i)) =~= s.take(i)
            + s.skip(i + 1));
    }
}

proof fn lemma_remove_first_none(s: Seq<CommitSpec>, x: CommitSpec)
    requires
        forall|j: int| 0 <= j < s.len() ==> s[j] != x,
    ensures
        remove_first(s, x) == s,
    decreases s.len(),
{
    if s.len() > 0 {
        lemma_remove_first_none(s.drop_first(), x);
        assert(seq![s[0]] + s.drop_first() =~= s);
    }
}

impl MessageDeduplicator {
    /// Stages the counts of a candidate and its hashes, as `staged` states.
    fn pending_add(&mut self, c: &DedupCandidate, hs: &Vec<(u64, u64)>)
        requires
            old(self).tables_wf(),
        ensures
            final(self).tables_wf(),
            final(self)@ == staged(old(self)@, c@, hs@),
    {
        if c.fp != 0 {
            self.pending_fingerprints.add(&c.fp);
        }
        if c.text_features.len() > 0 {
            self.pending_text_features.add(&c.text_features);
        }
        add_keys(&mut self.pending_media_id_sigs, &c.media_id_sigs);
        add_keys(&mut self.pending_media_meta_sigs, &c.media_meta_sigs);
        add_keys(&mut self.pending_thumb_hashes, hs);
        assert(key_views(c.media_id_sigs@) =~= str_views(c.media_id_sigs@));
        assert(key_views(c.media_meta_sigs@) =~= str_views(c.media_meta_sigs@));
        assert(key_views(hs@) =~= hs@);
    }

    /// Unstages the counts of a candidate and its hashes, as `unstaged` states.
    fn pending_remove(&mut self, c: &DedupCandidate, hs: &Vec<(u64, u64)>)
        requires
            old(self).tables_wf(),
        ensures
            final(self).tables_wf(),
            final(self)@ == unstaged(old(self)@, c@, hs@),
    {
        if c.fp != 0 {
            self.pending_fingerprints.remove(&c.fp);
        }
        if c.text_features.len() > 0 {
            self.pending_text_features.remove(&c.text_features);
        }
        remove_keys(&mut self.pending_media_id_sigs, &c.media_id_sigs);
        remove_keys(&mut self.pending_media_meta_sigs, &c.media_meta_sigs);
        remove_keys(&mut self.pending_thumb_hashes, hs);
        assert(key_views(c.media_id_sigs@) =~= str_views(c.media_id_sigs@));
        assert(key_views(c.media_meta_sigs@) =~= str_views(c.media_meta_sigs@));
        assert(key_views(hs@) =~= hs@);
    }

    /// Drops the first staged entry equal to `info`.
    fn remove_pending_candidate_info(&mut self, info: &DedupCommitInfo)
        requires
            old(self).tables_wf(),
        ensures
            final(self).tables_wf(),
            final(self)@ == (DedupModel {
                candidates: remove_first(old(self)@.candidates, info@),
                ..old(self)@
            }),
    {
        let mut i: usize = 0;
        while i < self.pending_candidates.len()
            invariant
                self.tables_wf(),
                self@ == old(self)@,
                i <= self.pending_candidates@.len(),
                self.pending_candidates@ == old(self).pending_candidates@,
                forall|j: int| 0 <= j < i ==> self.pending_candidates@[j]@ != info@,
            decreases self.pending_candidates@.len() - i,
        {
            if self.pending_candidates[i].same(info) {
                let ghost before = commit_views(self.pending_candidates@);
                proof {
                    lemma_remove_first(before, info@, i as int);
                }
                self.pending_candidates.remove(i);
                assert(commit_views(self.pending_candidates@) =~= before.take(i as int) + before.skip(
                    i + 1,
                ));
                return ;
            }
            i = i + 1;
        }
        proof {
            lemma_remove_first_none(commit_views(self.pending_candidates@), info@);
        }
    }

    /// Stages a candidate and its thumbnail hashes until it is committed or rolled back:
    /// their signatures count as known meanwhile.
    pub fn stage_candidate(&mut self, candidate: DedupCandidate, thumb_hashes: Vec<(u64, u64)>) -> (r: DedupCommitInfo)
        requires
            old(self).wf(),
        ensures
            final(self).wf(),
            r@ == (CommitSpec { candidate: candidate@, thumb_hashes: thumb_hashes@ }),
            final(self)@ == staged_with(old(self)@, candidate@, thumb_hashes@),
    {
        proof {
            lemma_stage_consistent(
                self@,
                CommitSpec { candidate: candidate@, thumb_hashes: thumb_hashes@ },
            );
        }
        self.pending_add(&candidate, &thumb_hashes);
        let info = DedupCommitInfo { candidate, thumb_hashes };
        let ghost before = commit_views(self.pending_candidates@);
        self.pending_candidates.push(info.duplicate());
        assert(commit_views(self.pending_candidates@) =~= before.push(info@));
        info
    }

    /// Records a candidate in the history, as `recorded_candidate` states.
    pub fn record_candidate(&mut self, candidate: DedupCandidate)
        requires
            old(self).wf(),
        ensures
            final(self).wf(),
            final(self)@ == recorded_candidate(old(self)@, candidate@),
    {
        let ghost c = candidate@;
        let limit = self.config.limit;
        let text_limit = self.config.recent_text_limit;
        let media_limit = self.config.media_limit;
        if candidate.fp != 0 {
            append_unique_u64(&mut self.fingerprints, candidate.fp, limit);
        }
        if candidate.text_features.len() > 0 {
            append_unique_vec(&mut self.recent_text_features, candidate.text_features, text_limit);
        }
        record_all_media(
            &mut self.media_id_signatures,
            &mut self.media_id_signature_set,
            &candidate.media_id_sigs,
            media_limit,
        );
        record_all_media(
            &mut self.media_meta_signatures,
            &mut self.media_meta_signature_set,
            &candidate.media_meta_sigs,
            media_limit,
        );
    }

    /// Records a thumbnail hash pair, as `record_thumb` states.
    pub fn record_thumb_hash(&mut self, hash: (u64, u64))
        requires
            old(self).wf(),
        ensures
            final(self).wf(),
            final(self)@ == (DedupModel {
                thumbs: record_thumb(old(self)@.thumbs, hash, old(self)@.config.media_limit),
                ..old(self)@
            }),
    {
        let mut i: usize = 0;
        while i < self.media_thumb_hashes.len()
            invariant
                self.wf(),
                self@ == old(self)@,
                i <= self.media_thumb_hashes@.len(),
                self.media_thumb_hashes@ == old(self).media_thumb_hashes@,
                forall|j: int| 0 <= j < i ==> self.media_thumb_hashes@[j] != hash,
            decreases self.media_thumb_hashes@.len() - i,
        {
            if self.media_thumb_hashes[i].0 == hash.0 && self.media_thumb_hashes[i].1 == hash.1 {
                assert(self.media_thumb_hashes@[i as int] == hash);
                return ;
            }
            i = i + 1;
        }
        if self.media_thumb_hashes.len() >= self.config.media_limit {
            self.media_thumb_hashes.pop_front();
        }
        self.media_thumb_hashes.push_back(hash);
    }

    /// Records each hash pair of `hs`, in order.
    fn record_thumb_hashes(&mut self, hs: &Vec<(u64, u64)>)
        requires
            old(self).wf(),
        ensures
            final(self).wf(),
            final(self)@ == (DedupModel {
                thumbs: record_thumbs(old(self)@.thumbs, hs@, old(self)@.config.media_limit),
                ..old(self)@
            }),
    {
        let mut i: usize = 0;
        while i < hs.len()
            invariant
                self.wf(),
                i <= hs@.len(),
                self@ == (DedupModel {
                    thumbs: record_thumbs(
                        old(self)@.thumbs,
                        hs@.take(i as int),
                        old(self)@.config.media_limit,
                    ),
                    ..old(self)@
                }),
            decreases hs@.len() - i,
        {
            self.record_thumb_hash(hs[i]);
            assert(hs@.take(i + 1).drop_last() =~= hs@.take(i as int));
            i = i + 1;
        }
        assert(hs@.take(i as int) =~= hs@);
    }

    /// Commits a staged candidate, as `committed` states.
    pub fn commit_pending(&mut self, info: DedupCommitInfo)
        requires
            old(self).wf(),
        ensures
            final(self).wf(),
            final(self)@ == committed(old(self)@, info@),
    {
        proof {
            lemma_unstage_consistent(self@, info@);
        }
        self.pending_remove(&info.candidate, &info.thumb_hashes);
        self.record_candidate(info.candidate.duplicate());
        self.record_thumb_hashes(&info.thumb_hashes);
        self.remove_pending_candidate_info(&info);
    }

    /// Drops a staged candidate, as `rolled_back` states.
    pub fn rollback_pending(&mut self, info: DedupCommitInfo)
        requires
            old(self).wf(),
        ensures
            final(self).wf(),
            final(self)@ == rolled_back(old(self)@, info@),
    {
        proof {
            lemma_unstage_consistent(self@, info@);
        }
        self.pending_remove(&info.candidate, &info.thumb_hashes);
        self.remove_pending_candidate_info(&info);
    }

    /// Hands out every staged candidate and clears the staging area.
    pub fn take_all_pending(&mut self) -> (r: Vec<DedupCommitInfo>)
        requires
            old(self).wf(),
        ensures
            final(self).wf(),
            commit_views(r@) == old(self)@.candidates,
            final(self)@ == (DedupModel {
                pending_fps: Map::empty(),
                pending_feats: Map::empty(),
                pending_ids: Map::empty(),
                pending_metas: Map::empty(),
                pending_thumbs: Map::empty(),
                candidates: Seq::empty(),
                ..old(self)@
            }),
    {
        let mut infos: Vec<DedupCommitInfo> = Vec::new();
        std::mem::swap(&mut infos, &mut self.pending_candidates);
        self.pending_fingerprints.clear();
        self.pending_text_features.clear();
        self.pending_media_id_sigs.clear();
        self.pending_media_meta_sigs.clear();
        self.pending_thumb_hashes.clear();
        assert(commit_views(self.pending_candidates@) =~= Seq::<CommitSpec>::empty());
        infos
    }

    /// Commits each of `infos`, in order.
    pub fn commit_all_pending(&mut self, infos: &[DedupCommitInfo])
        requires
            old(self).wf(),
        ensures
            final(self).wf(),
            final(self)@ == committed_all(old(self)@, commit_views(infos@)),
    {
        let mut i: usize = 0;
        while i < infos.len()
            invariant
                self.wf(),
                i <= infos@.len(),
                self@ == committed_all(old(self)@, commit_views(infos@).take(i as int)),
            decreases infos@.len() - i,
        {
            self.commit_pending(infos[i].duplicate());
            assert(commit_views(infos@).take(i + 1).drop_last() =~= commit_views(infos@).take(
                i as int,
            ));
            i = i + 1;
        }
        assert(commit_views(infos@).take(i as int) =~= commit_views(infos@));
    }

    /// Rolls back each of `infos`, in order.
    pub fn rollback_all_pending(&mut self, infos: &[DedupCommitInfo])
        requires
            old(self).wf(),
        ensures
            final(self).wf(),
            final(self)@ == rolled_back_all(old(self)@, commit_views(infos@)),
    {
        let mut i: usize = 0;
        while i < infos.len()
            invariant
                self.wf(),
                i <= infos@.len(),
                self@ == rolled_back_all(old(self)@, commit_views(infos@).take(i as int)),
            decreases infos@.len() - i,
        {
            self.rollback_pending(infos[i].duplicate());
            assert(commit_views(infos@).take(i + 1).drop_last() =~= commit_views(infos@).take(
                i as int,
            ));
            i = i + 1;
        }
        assert(commit_views(infos@).take(i as int) =~= commit_views(infos@));
    }

    /// Whether a thumbnail hash pair is near a known one.
    fn thumb_match(&self, phash: u64, dhash: u64) -> (r: bool)
        requires
            self.wf(),
        ensures
            r == thumb_hit(self@, (phash, dhash)),
    {
        let pt = self.config.thumb_phash_threshold;
        let dt = self.config.thumb_dhash_threshold;
        let mut i: usize = 0;
        while i < self.media_thumb_hashes.len()
            invariant
                i <= self.media_thumb_hashes@.len(),
                pt == self@.config.thumb_phash_threshold,
                dt == self@.config.thumb_dhash_threshold,
                forall|j: int|
                    0 <= j < i ==> hamming(phash, (#[trigger] self.media_thumb_hashes@[j]).0) > pt
                        && hamming(dhash, self.media_thumb_hashes@[j].1) > dt,
            decreases self.media_thumb_hashes@.len() - i,
        {
            let t = self.media_thumb_hashes[i];
            if hamming_distance(phash, t.0) as usize <= pt || hamming_distance(dhash, t.1) as usize
                <= dt {
                assert(known_thumbs(self@).contains(t));
                return true;
            }
            i = i + 1;
        }
        let n = self.pending_thumb_hashes.len();
        let mut k: usize = 0;
        while k < n
            invariant
                self.wf(),
                n == self.pending_thumb_hashes.spec_len(),
                k <= n,
                pt == self@.config.thumb_phash_threshold,
                dt == self@.config.thumb_dhash_threshold,
                forall|j: int|
                    0 <= j < k ==> hamming(phash, self.pending_thumb_hashes.key_at(j).0) > pt
                        && hamming(dhash, self.pending_thumb_hashes.key_at(j).1) > dt,
            decreases n - k,
        {
            let t = *self.pending_thumb_hashes.key(k);
            if hamming_distance(phash, t.0) as usize <= pt || hamming_distance(dhash, t.1) as usize
                <= dt {
                proof {
                    self.pending_thumb_hashes.lemma_keys();
                    assert(self.pending_thumb_hashes@.contains_key(t));
                    assert(known_thumbs(self@).contains(t));
                }
                return true;
            }
            k = k + 1;
        }
        proof {
            self.pending_thumb_hashes.lemma_keys();
            assert forall|t: (u64, u64)| #[trigger] known_thumbs(self@).contains(t) implies !(
            hamming(phash, t.0) <= pt || hamming(dhash, t.1) <= dt) by {
                if self.media_thumb_hashes@.contains(t) {
                    let j = choose|j: int|
                        0 <= j < self.media_thumb_hashes@.len() && self.media_thumb_hashes@[j] == t;
                    assert(hamming(phash, self.media_thumb_hashes@[j].0) > pt);
                } else {
                    assert(self.pending_thumb_hashes@.contains_key(t));
                    let j = choose|j: int|
                        0 <= j < self.pending_thumb_hashes.spec_len()
                            && self.pending_thumb_hashes.key_at(j) == t;
                    assert(hamming(phash, self.pending_thumb_hashes.key_at(j).0) > pt);
                }
            }
        }
        false
    }

    /// Whether the thumbnails of a message repeat, as `thumbs_duplicate` states.
    pub fn check_thumb(&self, thumb_hashes: &[(u64, u64)]) -> (r: bool)
        requires
            self.wf(),
        ensures
            r == thumbs_duplicate(self@, thumb_hashes@),
    {
        let total = thumb_hashes.len();
        if total == 0 {
            return false;
        }
        let mut matched: usize = 0;
        let mut i: usize = 0;
        while i < total
            invariant
                self.wf(),
                total == thumb_hashes@.len(),
                i <= total,
                matched == thumbs_matched(self@, thumb_hashes@, i as nat),
                matched <= i,
            decreases total - i,
        {
            let (p, d) = thumb_hashes[i];
            if self.thumb_match(p, d) {
                matched = matched + 1;
            }
            i = i + 1;
        }
        if matched == 0 {
            return false;
        }
        if total == 1 {
            return true;
        }
        proof {
            let a = self.config.album_thumb_ratio_ppm as u128;
            let b = total as u128;
            assert(a * b <= 0xffff_ffff_ffff_ffff * 0xffff_ffff_ffff_ffff) by (nonlinear_arith)
                requires
                    a <= 0xffff_ffff_ffff_ffff,
                    b <= 0xffff_ffff_ffff_ffff,
            ;
            assert((matched as u128) * 1_000_000 <= 0xffff_ffff_ffff_ffff * 1_000_000) by (
            nonlinear_arith)
                requires
                    matched <= 0xffff_ffff_ffff_ffff,
            ;
        }
        (matched as u128) * 1_000_000 > (self.config.album_thumb_ratio_ppm as u128) * (total as u128)
    }
}

/// A fingerprint is at distance 0 from itself.
proof fn lemma_hamming_self(x: u64)
    ensures
        hamming(x, x) == 0,
{
    assert(x ^ x == 0) by (bit_vector);
}

/// Once a message without media is recorded, the same text is found a duplicate, as
/// long as its text has a fingerprint and the history keeps at least one.
pub proof fn law_recorded_text_is_duplicate(d: DedupModel, text: Seq<char>)
    requires
        fingerprint(text) != 0,
        d.config.limit > 0,
    ensures
        is_duplicate(
            recorded_candidate(d, candidate_for(text, Seq::empty())),
            text,
            Seq::empty(),
        ),
{
    let fp = fingerprint(text);
    let r = recorded_candidate(d, candidate_for(text, Seq::empty()));
    let s = d.fingerprints;
    if !s.contains(fp) {
        if s.len() + 1 > d.config.limit {
            let t = s.push(fp).drop_first();
            assert(t[t.len() - 1] == fp);
        } else {
            assert(s.push(fp)[s.len() as int] == fp);
        }
    }
    assert(r.fingerprints.contains(fp));
    assert(known_fps(r).contains(fp));
    lemma_hamming_self(fp);
    assert(simhash_hit(r, text));
}

/// While a message without media is staged, the same text is found a duplicate, as long
/// as its text has a fingerprint.
pub proof fn law_staged_text_is_duplicate(d: DedupModel, text: Seq<char>, hs: Seq<(u64, u64)>)
    requires
        fingerprint(text) != 0,
    ensures
        is_duplicate(staged(d, candidate_for(text, Seq::empty()), hs), text, Seq::empty()),
{
    let fp = fingerprint(text);
    let st = staged(d, candidate_for(text, Seq::empty()), hs);
    assert(st.pending_fps.contains_key(fp));
    assert(known_fps(st).contains(fp));
    lemma_hamming_self(fp);
    assert(simhash_hit(st, text));
}

/// How often `k` is counted in `m`.
pub open spec fn count_of<V>(m: Map<V, nat>, k: V) -> nat {
    if m.contains_key(k) {
        m[k]
    } else {
        0
    }
}

/// Every key of `m` has a count between 1 and `usize::MAX - 1 - room`.
pub open spec fn counts_with_room<V>(m: Map<V, nat>, room: nat) -> bool {
    &&& room < usize::MAX
    &&& forall|k: V| #[trigger] m.contains_key(k) ==> 0 < m[k] && m[k] + room < usize::MAX
}

/// How often `k` occurs in `ks`.
pub open spec fn occurrences<V>(ks: Seq<V>, k: V) -> nat
    decreases ks.len(),
{
    if ks.len() == 0 {
        0
    } else {
        occurrences(ks.drop_last(), k) + if ks.last() == k {
            1nat
        } else {
            0nat
        }
    }
}

proof fn lemma_occurrences_bound<V>(ks: Seq<V>, k: V)
    ensures
        occurrences(ks, k) <= ks.len(),
    decreases ks.len(),
{
    if ks.len() > 0 {
        lemma_occurrences_bound(ks.drop_last(), k);
    }
}

/// Adding `ks` raises each count by its occurrences and keeps counts positive.
proof fn lemma_add_all_counts<V>(m: Map<V, nat>, ks: Seq<V>)
    requires
        counts_with_room(m, ks.len()),
    ensures
        forall|k: V| #[trigger] count_of(add_all(m, ks), k) == count_of(m, k) + occurrences(ks, k),
        forall|k: V| #[trigger] add_all(m, ks).contains_key(k) ==> add_all(m, ks)[k] > 0,
    decreases ks.len(),
{
    if ks.len() > 0 {
        let prev = ks.drop_last();
        assert(counts_with_room(m, prev.len())) by {
            assert forall|k: V| #[trigger] m.contains_key(k) implies 0 < m[k] && m[k] + prev.len() < usize::MAX by {}
        }
        lemma_add_all_counts(m, prev);
        let a = add_all(m, prev);
        let x = ks.last();
        lemma_occurrences_bound(prev, x);
        assert(count_of(a, x) < usize::MAX) by {
            if m.contains_key(x) {
                assert(m[x] + ks.len() < usize::MAX);
            }
        }
        assert forall|k: V| #[trigger] count_of(add_all(m, ks), k) == count_of(m, k) + occurrences(ks, k) by {
            assert(add_all(m, ks) == count_added(a, x));
            assert(count_of(a, k) == count_of(m, k) + occurrences(prev, k));
        }
        assert forall|k: V| #[trigger] add_all(m, ks).contains_key(k) implies add_all(m, ks)[k] > 0 by {
            assert(add_all(m, ks) == count_added(a, x));
            if k != x {
                assert(a.contains_key(k));
            }
        }
    }
}

/// Removing `ks` lowers each count by its occurrences, not below zero, and keeps the
/// counts that remain positive.
proof fn lemma_remove_all_counts<V>(m: Map<V, nat>, ks: Seq<V>)
    requires
        forall|k: V| #[trigger] m.contains_key(k) ==> m[k] > 0,
    ensures
        forall|k: V| #[trigger] count_of(remove_all(m, ks), k) == if count_of(m, k) >= occurrences(ks, k) {
            (count_of(m, k) - occurrences(ks, k)) as nat
        } else {
            0nat
        },
        forall|k: V| #[trigger] remove_all(m, ks).contains_key(k) ==> remove_all(m, ks)[k] > 0,
    decreases ks.len(),
{
    if ks.len() > 0 {
        let prev = ks.drop_last();
        lemma_remove_all_counts(m, prev);
        let r = remove_all(m, prev);
        let x = ks.last();
        assert(remove_all(m, ks) == count_removed(r, x));
        assert forall|k: V| #[trigger] count_of(remove_all(m, ks), k) == if count_of(m, k) >= occurrences(ks, k) {
            (count_of(m, k) - occurrences(ks, k)) as nat
        } else {
            0nat
        } by {
            assert(count_of(r, k) == if count_of(m, k) >= occurrences(prev, k) {
                (count_of(m, k) - occurrences(prev, k)) as nat
            } else {
                0nat
            });
            if k == x && r.contains_key(x) {
                assert(r[x] > 0);
            }
        }
        assert forall|k: V| #[trigger] remove_all(m, ks).contains_key(k) implies remove_all(m, ks)[k] > 0 by {
            if k != x {
                assert(r.contains_key(k));
            }
        }
    }
}

/// Adding and then removing the same keys gives back the counts, when each count is
/// positive and has room for the additions.
proof fn lemma_remove_undoes_add<V>(m: Map<V, nat>, ks: Seq<V>)
    requires
        counts_with_room(m, ks.len()),
    ensures
        remove_all(add_all(m, ks), ks) == m,
{
    lemma_add_all_counts(m, ks);
    let a = add_all(m, ks);
    lemma_remove_all_counts(a, ks);
    let r = remove_all(a, ks);
    assert forall|k: V| #[trigger] r.contains_key(k) <==> m.contains_key(k) by {
        assert(count_of(r, k) == count_of(m, k));
        if m.contains_key(k) {
            assert(m[k] > 0);
        }
        if r.contains_key(k) {
            assert(r[k] > 0);
        }
    }
    assert forall|k: V| #[trigger] r.contains_key(k) implies r[k] == m[k] by {
        assert(count_of(r, k) == count_of(m, k));
    }
    assert(r =~= m);
}

/// Rolling back a staged candidate undoes staging it: the deduplicator is as it was,
/// when no equal candidate was staged before and each staging count is positive with
/// room for the candidate's entries.
pub proof fn law_rollback_undoes_stage(d: DedupModel, c: CandidateSpec, hs: Seq<(u64, u64)>)
    requires
        !d.candidates.contains(CommitSpec { candidate: c, thumb_hashes: hs }),
        counts_with_room(d.pending_fps, 1),
        counts_with_room(d.pending_feats, 1),
        counts_with_room(d.pending_ids, c.media_id_sigs.len()),
        counts_with_room(d.pending_metas, c.media_meta_sigs.len()),
        counts_with_room(d.pending_thumbs, hs.len()),
    ensures
        rolled_back(
            DedupModel {
                candidates: d.candidates.push(CommitSpec { candidate: c, thumb_hashes: hs }),
                ..staged(d, c, hs)
            },
            CommitSpec { candidate: c, thumb_hashes: hs },
        ) == d,
{
    let info = CommitSpec { candidate: c, thumb_hashes: hs };
    let s = DedupModel { candidates: d.candidates.push(info), ..staged(d, c, hs) };
    lemma_remove_undoes_add(d.pending_ids, c.media_id_sigs);
    lemma_remove_undoes_add(d.pending_metas, c.media_meta_sigs);
    lemma_remove_undoes_add(d.pending_thumbs, hs);
    if c.fp != 0 {
        lemma_remove_undoes_add(d.pending_fps, seq![c.fp]);
        assert(add_all(d.pending_fps, Seq::<u64>::empty()) == d.pending_fps);
        assert(remove_all(count_added(d.pending_fps, c.fp), Seq::<u64>::empty()) == count_added(d.pending_fps, c.fp));
        assert(add_all(d.pending_fps, seq![c.fp]) == count_added(d.pending_fps, c.fp)) by {
            assert(seq![c.fp].drop_last() =~= Seq::<u64>::empty());
        }
        assert(remove_all(count_added(d.pending_fps, c.fp), seq![c.fp]) == count_removed(
            count_added(d.pending_fps, c.fp),
            c.fp,
        )) by {
            assert(seq![c.fp].drop_last() =~= Seq::<u64>::empty());
        }
    }
    if c.text_features.len() > 0 {
        let f = c.text_features;
        lemma_remove_undoes_add(d.pending_feats, seq![f]);
        assert(add_all(d.pending_feats, Seq::<Seq<u64>>::empty()) == d.pending_feats);
        assert(remove_all(count_added(d.pending_feats, f), Seq::<Seq<u64>>::empty()) == count_added(d.pending_feats, f));
        assert(add_all(d.pending_feats, seq![f]) == count_added(d.pending_feats, f)) by {
            assert(seq![f].drop_last() =~= Seq::<Seq<u64>>::empty());
        }
        assert(remove_all(count_added(d.pending_feats, f), seq![f]) == count_removed(
            count_added(d.pending_feats, f),
            f,
        )) by {
            assert(seq![f].drop_last() =~= Seq::<Seq<u64>>::empty());
        }
    }
    lemma_remove_first_pushed(d.candidates, info);
}

proof fn lemma_remove_first_pushed<T>(s: Seq<T>, x: T)
    requires
        !s.contains(x),
    ensures
        remove_first(s.push(x), x) == s,
    decreases s.len(),
{
    if s.len() == 0 {
        assert(s.push(x)[0] == x);
        assert(s.push(x).skip(1) =~= s);
    } else {
        assert(s.push(x)[0] == s[0]);
        assert(s[0] != x) by {
            assert(s.contains(s[0]));
        }
        assert(!s.drop_first().contains(x)) by {
            if s.drop_first().contains(x) {
                let i = choose|i: int| 0 <= i < s.drop_first().len() && s.drop_first()[i] == x;
                assert(s[i + 1] == x);
            }
        }
        lemma_remove_first_pushed(s.drop_first(), x);
        assert(s.push(x).drop_first() =~= s.drop_first().push(x));
        assert(seq![s[0]] + s.drop_first() =~= s);
    }
}


/// Staging an entry adds its keys' occurrences.
proof fn lemma_staged_occurrences_push<V>(
    s: Seq<CommitSpec>,
    keys: spec_fn(CommitSpec) -> Seq<V>,
    x: CommitSpec,
    k: V,
)
    ensures
        staged_occurrences(s.push(x), keys, k) == staged_occurrences(s, keys, k) + occurrences(
            keys(x),
            k,
        ),
    decreases s.len(),
{
    if s.len() == 0 {
        assert(s.push(x).drop_first() =~= s);
    } else {
        lemma_staged_occurrences_push(s.drop_first(), keys, x, k);
        assert(s.push(x).drop_first() =~= s.drop_first().push(x));
    }
}

/// Dropping the first entry equal to `x` takes away its keys' occurrences; with no
/// such entry nothing changes.
proof fn lemma_staged_occurrences_remove_first<V>(
    s: Seq<CommitSpec>,
    keys: spec_fn(CommitSpec) -> Seq<V>,
    x: CommitSpec,
    k: V,
)
    ensures
        s.contains(x) ==> staged_occurrences(remove_first(s, x), keys, k) + occurrences(keys(x), k)
            == staged_occurrences(s, keys, k),
        !s.contains(x) ==> remove_first(s, x) == s,
    decreases s.len(),
{
    if s.len() > 0 {
        let t = s.drop_first();
        lemma_staged_occurrences_remove_first(t, keys, x, k);
        if s[0] != x {
            let r = remove_first(t, x);
            assert((seq![s[0]] + r)[0] == s[0]);
            assert((seq![s[0]] + r).drop_first() =~= r);
            assert(s.contains(x) <==> t.contains(x)) by {
                if s.contains(x) {
                    let i = choose|i: int| 0 <= i < s.len() && s[i] == x;
                    assert(t[i - 1] == x);
                }
                if t.contains(x) {
                    let j = choose|j: int| 0 <= j < t.len() && t[j] == x;
                    assert(s[j + 1] == x);
                }
            }
            if !s.contains(x) {
                assert(seq![s[0]] + t =~= s);
            }
        } else {
            assert(s.contains(x)) by {
                assert(s[0] == x);
            }
        }
    }
}

/// Adding `ks` raises each count by at most its occurrences and keeps counts positive.
proof fn lemma_add_all_bound<V>(m: Map<V, nat>, ks: Seq<V>)
    requires
        forall|k: V| #[trigger] m.contains_key(k) ==> m[k] > 0,
    ensures
        forall|k: V| #[trigger]
            count_of(add_all(m, ks), k) <= count_of(m, k) + occurrences(ks, k),
        forall|k: V| #[trigger] add_all(m, ks).contains_key(k) ==> add_all(m, ks)[k] > 0,
    decreases ks.len(),
{
    if ks.len() > 0 {
        let prev = ks.drop_last();
        lemma_add_all_bound(m, prev);
        let a = add_all(m, prev);
        let x = ks.last();
        assert(add_all(m, ks) == count_added(a, x));
        assert forall|k: V| #[trigger]
            count_of(add_all(m, ks), k) <= count_of(m, k) + occurrences(ks, k) by {
            assert(count_of(a, k) <= count_of(m, k) + occurrences(prev, k));
        }
        assert forall|k: V| #[trigger] add_all(m, ks).contains_key(k) implies add_all(m, ks)[k]
            > 0 by {
            if k != x {
                assert(a.contains_key(k));
            }
        }
    }
}

/// Staging `x` keeps a table accounted for.
proof fn lemma_stage_accounted<V>(
    m: Map<V, nat>,
    s: Seq<CommitSpec>,
    keys: spec_fn(CommitSpec) -> Seq<V>,
    x: CommitSpec,
)
    requires
        counts_accounted(m, s, keys),
    ensures
        counts_accounted(add_all(m, keys(x)), s.push(x), keys),
{
    lemma_add_all_bound(m, keys(x));
    let a = add_all(m, keys(x));
    assert forall|k: V| #[trigger] a.contains_key(k) implies 0 < a[k] <= staged_occurrences(
        s.push(x),
        keys,
        k,
    ) by {
        lemma_staged_occurrences_push(s, keys, x, k);
        assert(count_of(a, k) <= count_of(m, k) + occurrences(keys(x), k));
        if m.contains_key(k) {
            assert(m[k] <= staged_occurrences(s, keys, k));
        }
    }
}

/// Unstaging `x` keeps a table accounted for, whether or not `x` leaves the list.
proof fn lemma_unstage_accounted<V>(
    m: Map<V, nat>,
    s: Seq<CommitSpec>,
    keys: spec_fn(CommitSpec) -> Seq<V>,
    x: CommitSpec,
)
    requires
        counts_accounted(m, s, keys),
    ensures
        counts_accounted(remove_all(m, keys(x)), s, keys),
        counts_accounted(remove_all(m, keys(x)), remove_first(s, x), keys),
{
    lemma_remove_all_counts(m, keys(x));
    let r = remove_all(m, keys(x));
    assert forall|k: V| #[trigger] r.contains_key(k) implies 0 < r[k] <= staged_occurrences(
        s,
        keys,
        k,
    ) && r[k] <= staged_occurrences(remove_first(s, x), keys, k) by {
        lemma_staged_occurrences_remove_first(s, keys, x, k);
        assert(r[k] > 0);
        assert(count_of(r, k) == r[k]);
        assert(m.contains_key(k));
        assert(m[k] <= staged_occurrences(s, keys, k));
    }
}

/// The staging tables after staging are the old ones with each entry's keys added,
/// and after unstaging, with them removed.
proof fn lemma_staging_tables(d: DedupModel, x: CommitSpec)
    ensures
        staged(d, x.candidate, x.thumb_hashes).pending_fps == add_all(d.pending_fps, fp_keys()(x)),
        staged(d, x.candidate, x.thumb_hashes).pending_feats == add_all(
            d.pending_feats,
            feat_keys()(x),
        ),
        unstaged(d, x.candidate, x.thumb_hashes).pending_fps == remove_all(
            d.pending_fps,
            fp_keys()(x),
        ),
        unstaged(d, x.candidate, x.thumb_hashes).pending_feats == remove_all(
            d.pending_feats,
            feat_keys()(x),
        ),
{
    let c = x.candidate;
    assert(seq![c.fp].drop_last() =~= Seq::<u64>::empty());
    assert(seq![c.text_features].drop_last() =~= Seq::<Seq<u64>>::empty());
    assert(add_all(d.pending_fps, Seq::<u64>::empty()) == d.pending_fps);
    assert(remove_all(d.pending_fps, Seq::<u64>::empty()) == d.pending_fps);
    assert(add_all(d.pending_feats, Seq::<Seq<u64>>::empty()) == d.pending_feats);
    assert(remove_all(d.pending_feats, Seq::<Seq<u64>>::empty()) == d.pending_feats);
}

/// Staging keeps the staging counts accounted for.
proof fn lemma_stage_consistent(d: DedupModel, x: CommitSpec)
    requires
        pending_consistent(d),
    ensures
        pending_consistent(staged_with(d, x.candidate, x.thumb_hashes)),
{
    lemma_staging_tables(d, x);
    lemma_stage_accounted(d.pending_fps, d.candidates, fp_keys(), x);
    lemma_stage_accounted(d.pending_feats, d.candidates, feat_keys(), x);
    lemma_stage_accounted(d.pending_ids, d.candidates, id_keys(), x);
    lemma_stage_accounted(d.pending_metas, d.candidates, meta_keys(), x);
    lemma_stage_accounted(d.pending_thumbs, d.candidates, thumb_keys(), x);
}

/// Unstaging, committing and rolling back keep the staging counts accounted for.
proof fn lemma_unstage_consistent(d: DedupModel, x: CommitSpec)
    requires
        pending_consistent(d),
    ensures
        pending_consistent(unstaged(d, x.candidate, x.thumb_hashes)),
        pending_consistent(rolled_back(d, x)),
        pending_consistent(committed(d, x)),
{
    lemma_staging_tables(d, x);
    lemma_unstage_accounted(d.pending_fps, d.candidates, fp_keys(), x);
    lemma_unstage_accounted(d.pending_feats, d.candidates, feat_keys(), x);
    lemma_unstage_accounted(d.pending_ids, d.candidates, id_keys(), x);
    lemma_unstage_accounted(d.pending_metas, d.candidates, meta_keys(), x);
    lemma_unstage_accounted(d.pending_thumbs, d.candidates, thumb_keys(), x);
}


/// Nothing staged: no candidate listed and every staging table empty.
pub open spec fn nothing_staged(d: DedupModel) -> bool {
    &&& d.candidates.len() == 0
    &&& d.pending_fps == Map::<u64, nat>::empty()
    &&& d.pending_feats == Map::<Seq<u64>, nat>::empty()
    &&& d.pending_ids == Map::<Seq<char>, nat>::empty()
    &&& d.pending_metas == Map::<Seq<char>, nat>::empty()
    &&& d.pending_thumbs == Map::<(u64, u64), nat>::empty()
}

/// A table accounted for by no entries is empty.
proof fn lemma_unaccounted_empty<V>(m: Map<V, nat>, keys: spec_fn(CommitSpec) -> Seq<V>)
    requires
        counts_accounted(m, Seq::empty(), keys),
    ensures
        m == Map::<V, nat>::empty(),
{
    assert forall|k: V| #[trigger] m.contains_key(k) implies false by {
        assert(m[k] <= staged_occurrences(Seq::<CommitSpec>::empty(), keys, k));
    }
    assert(m =~= Map::<V, nat>::empty());
}

/// With no candidate staged, the staging tables hold no counts.
pub proof fn law_no_staged_candidate_no_counts(d: &MessageDeduplicator)
    requires
        d.wf(),
        d@.candidates.len() == 0,
    ensures
        nothing_staged(d@),
{
    let m = d@;
    assert(m.candidates =~= Seq::<CommitSpec>::empty());
    lemma_unaccounted_empty(m.pending_fps, fp_keys());
    lemma_unaccounted_empty(m.pending_feats, feat_keys());
    lemma_unaccounted_empty(m.pending_ids, id_keys());
    lemma_unaccounted_empty(m.pending_metas, meta_keys());
    lemma_unaccounted_empty(m.pending_thumbs, thumb_keys());
}

/// Adding keys to an empty table and removing them again leaves it empty.
proof fn lemma_add_remove_from_empty<V>(ks: Seq<V>)
    ensures
        remove_all(add_all(Map::<V, nat>::empty(), ks), ks) == Map::<V, nat>::empty(),
{
    let e = Map::<V, nat>::empty();
    lemma_add_all_bound(e, ks);
    let a = add_all(e, ks);
    lemma_remove_all_counts(a, ks);
    let r = remove_all(a, ks);
    assert forall|k: V| #[trigger] r.contains_key(k) implies false by {
        assert(r[k] > 0);
        assert(count_of(a, k) <= occurrences(ks, k));
        assert(count_of(r, k) == r[k]);
    }
    assert(r =~= e);
}

/// Staging and then unstaging the same entry on an idle deduplicator leaves its staging
/// tables empty.
proof fn lemma_unstage_after_stage_idle(d: DedupModel, x: CommitSpec)
    requires
        nothing_staged(d),
    ensures
        unstaged(staged_with(d, x.candidate, x.thumb_hashes), x.candidate, x.thumb_hashes) == (
        DedupModel { candidates: seq![x], ..d }),
{
    let st = staged_with(d, x.candidate, x.thumb_hashes);
    lemma_staging_tables(d, x);
    lemma_staging_tables(st, x);
    lemma_add_remove_from_empty(fp_keys()(x));
    lemma_add_remove_from_empty(feat_keys()(x));
    lemma_add_remove_from_empty(id_keys()(x));
    lemma_add_remove_from_empty(meta_keys()(x));
    lemma_add_remove_from_empty(thumb_keys()(x));
    assert(d.candidates.push(x) =~= seq![x]);
}

/// Rolling back the only staged candidate undoes staging it: the deduplicator is as it
/// was before, with nothing staged.
pub proof fn law_rollback_undoes_stage_when_idle(
    d: &MessageDeduplicator,
    c: CandidateSpec,
    hs: Seq<(u64, u64)>,
)
    requires
        d.wf(),
        d@.candidates.len() == 0,
    ensures
        rolled_back(staged_with(d@, c, hs), CommitSpec { candidate: c, thumb_hashes: hs }) == d@,
{
    let x = CommitSpec { candidate: c, thumb_hashes: hs };
    law_no_staged_candidate_no_counts(d);
    lemma_unstage_after_stage_idle(d@, x);
    assert(remove_first(seq![x], x) =~= d@.candidates);
}

/// Committing the only staged candidate leaves the deduplicator as recording the
/// candidate and then each of its hashes, in order, would have: nothing staged, the
/// same history.
pub proof fn law_commit_is_record_when_idle(
    d: &MessageDeduplicator,
    c: CandidateSpec,
    hs: Seq<(u64, u64)>,
)
    requires
        d.wf(),
        d@.candidates.len() == 0,
    ensures
        committed(staged_with(d@, c, hs), CommitSpec { candidate: c, thumb_hashes: hs }) == (
        DedupModel {
            thumbs: record_thumbs(recorded_candidate(d@, c).thumbs, hs, d@.config.media_limit),
            ..recorded_candidate(d@, c)
        }),
{
    let x = CommitSpec { candidate: c, thumb_hashes: hs };
    law_no_staged_candidate_no_counts(d);
    lemma_unstage_after_stage_idle(d@, x);
    assert(remove_first(seq![x], x) =~= d@.candidates);
}

/// `add_all` keeps every key and adds each of `ks`.
proof fn lemma_add_all_keys<V>(m: Map<V, nat>, ks: Seq<V>)
    ensures
        forall|k: V| m.contains_key(k) ==> #[trigger] add_all(m, ks).contains_key(k),
        forall|i: int| 0 <= i < ks.len() ==> add_all(m, ks).contains_key(#[trigger] ks[i]),
    decreases ks.len(),
{
    if ks.len() > 0 {
        let prev = ks.drop_last();
        lemma_add_all_keys(m, prev);
        assert(add_all(m, ks) == count_added(add_all(m, prev), ks.last()));
        assert forall|k: V| m.contains_key(k) implies #[trigger] add_all(m, ks).contains_key(k) by {
            assert(add_all(m, prev).contains_key(k));
        }
        assert forall|i: int| 0 <= i < ks.len() implies add_all(m, ks).contains_key(
            #[trigger] ks[i],
        ) by {
            if i < ks.len() - 1 {
                assert(prev[i] == ks[i]);
                assert(add_all(m, prev).contains_key(prev[i]));
            }
        }
    }
}

/// Staging leaves the history, and so the snapshot, unchanged, lists the entry last, and
/// makes the candidate's fingerprint (unless 0), its features (unless none), each of its
/// signatures and each of its hashes count as known.
pub proof fn law_stage_marks_known(d: DedupModel, c: CandidateSpec, hs: Seq<(u64, u64)>)
    ensures
        staged_with(d, c, hs).fingerprints == d.fingerprints,
        staged_with(d, c, hs).text_features == d.text_features,
        staged_with(d, c, hs).media_ids == d.media_ids,
        staged_with(d, c, hs).media_metas == d.media_metas,
        staged_with(d, c, hs).thumbs == d.thumbs,
        staged_with(d, c, hs).candidates.last() == (CommitSpec { candidate: c, thumb_hashes: hs }),
        c.fp != 0 ==> known_fps(staged_with(d, c, hs)).contains(c.fp),
        c.text_features.len() > 0 ==> known_feats(staged_with(d, c, hs)).contains(
            c.text_features,
        ),
        forall|i: int|
            0 <= i < c.media_id_sigs.len() ==> id_known(
                staged_with(d, c, hs),
                #[trigger] c.media_id_sigs[i],
            ),
        forall|i: int|
            0 <= i < c.media_meta_sigs.len() ==> meta_known(
                staged_with(d, c, hs),
                #[trigger] c.media_meta_sigs[i],
            ),
        forall|i: int|
            0 <= i < hs.len() ==> known_thumbs(staged_with(d, c, hs)).contains(#[trigger] hs[i]),
{
    let st = staged_with(d, c, hs);
    lemma_add_all_keys(d.pending_ids, c.media_id_sigs);
    lemma_add_all_keys(d.pending_metas, c.media_meta_sigs);
    lemma_add_all_keys(d.pending_thumbs, hs);
    if c.fp != 0 {
        assert(st.pending_fps.contains_key(c.fp));
    }
    if c.text_features.len() > 0 {
        assert(st.pending_feats.contains_key(c.text_features));
    }
    assert forall|i: int| 0 <= i < hs.len() implies known_thumbs(st).contains(
        #[trigger] hs[i],
    ) by {
        assert(st.pending_thumbs.contains_key(hs[i]));
    }
}

/// A list with no entry twice is kept whole.
proof fn lemma_keep_last_unique_distinct(s: Seq<Seq<char>>)
    requires
        s.no_duplicates(),
    ensures
        keep_last_unique(s) == s,
    decreases s.len(),
{
    if s.len() > 0 {
        let t = s.drop_first();
        assert(t.no_duplicates()) by {
            assert forall|i: int, j: int|
                0 <= i < t.len() && 0 <= j < t.len() && i != j implies t[i] != t[j] by {
                assert(t[i] == s[i + 1]);
                assert(t[j] == s[j + 1]);
            }
        }
        lemma_keep_last_unique_distinct(t);
        assert(!t.contains(s[0])) by {
            if t.contains(s[0]) {
                let j = choose|j: int| 0 <= j < t.len() && t[j] == s[0];
                assert(s[j + 1] == s[0]);
            }
        }
        assert(seq![s[0]] + t =~= s);
    }
}

/// A saved history within the limits, with no signature listed twice, is restored
/// exactly as it was saved.
pub proof fn law_restore_within_limits_keeps_history(
    config: DedupConfig,
    fps: Seq<u64>,
    ids: Seq<Seq<char>>,
    metas: Seq<Seq<char>>,
    thumbs: Seq<(u64, u64)>,
    feats: Seq<Seq<u64>>,
)
    requires
        fps.len() <= config.limit,
        ids.len() <= config.media_limit,
        metas.len() <= config.media_limit,
        thumbs.len() <= config.media_limit,
        feats.len() <= config.recent_text_limit,
        ids.no_duplicates(),
        metas.no_duplicates(),
    ensures
        restored_model(config, fps, ids, metas, thumbs, feats).fingerprints == fps,
        restored_model(config, fps, ids, metas, thumbs, feats).media_ids == ids,
        restored_model(config, fps, ids, metas, thumbs, feats).media_metas == metas,
        restored_model(config, fps, ids, metas, thumbs, feats).thumbs == thumbs,
        restored_model(config, fps, ids, metas, thumbs, feats).text_features == feats,
{
    lemma_keep_last_unique_distinct(ids);
    lemma_keep_last_unique_distinct(metas);
}

/// A single thumbnail whose pHash is within the pHash threshold of a remembered or staged
/// thumbnail's, or whose dHash is within the dHash threshold, is a duplicate, whatever the
/// other hash.
pub proof fn law_close_thumbnail_is_duplicate(d: DedupModel, h: (u64, u64), t: (u64, u64))
    requires
        d.thumbs.contains(t) || d.pending_thumbs.contains_key(t),
        hamming(h.0, t.0) <= d.config.thumb_phash_threshold || hamming(h.1, t.1)
            <= d.config.thumb_dhash_threshold,
    ensures
        thumbs_duplicate(d, seq![h]),
{
    assert(known_thumbs(d).contains(t));
    assert(thumb_hit(d, h));
    let hs = seq![h];
    assert(hs[0] == h);
    assert(thumbs_matched(d, hs, 0) == 0);
    assert(thumbs_matched(d, hs, 1) == 1);
}

/// Once a thumbnail is recorded (with room for at least one), a single thumbnail close to
/// it in pHash or in dHash is a duplicate.
pub proof fn law_recorded_thumbnail_matches_close_ones(d: DedupModel, t: (u64, u64), h: (u64, u64))
    requires
        d.config.media_limit > 0,
        hamming(h.0, t.0) <= d.config.thumb_phash_threshold || hamming(h.1, t.1)
            <= d.config.thumb_dhash_threshold,
    ensures
        thumbs_duplicate(
            DedupModel { thumbs: record_thumb(d.thumbs, t, d.config.media_limit), ..d },
            seq![h],
        ),
{
    let s = d.thumbs;
    let r = record_thumb(s, t, d.config.media_limit);
    if !s.contains(t) {
        if s.len() >= d.config.media_limit && s.len() > 0 {
            assert(r[r.len() - 1] == t);
        } else {
            assert(r[r.len() - 1] == t);
        }
    }
    assert(r.contains(t));
    law_close_thumbnail_is_duplicate(DedupModel { thumbs: r, ..d }, h, t);
}

} // verus!
