//! Where a message of a source goes when it arrives: an edit updates what is held back;
//! a processed or in-flight message is skipped; an album part is gathered; a text may
//! be held back for an album that follows; anything else is sent on its own.
use crate::album::{after_add, album_index, insert_by_id, message_views, AlbumAction, AlbumAggregator, AlbumSpec};
use crate::model::{MessageSpec, MessageView};
use crate::runner::{inflight_begun, InflightTracker};
use crate::skip_log::{flush_reports, flushed, record_outcome, report_view, SkipLogAggregator, SkipReport};
use crate::state::{key_view, StateStore};
use crate::text_merge::{as_held, long_enough, CacheSpec, TextMergeManager};
use vstd::prelude::*;

verus! {

/// A skip report is due once a source has this many id ranges skipped.
pub const SKIP_LOG_MAX_RANGES: usize = 32;

/// A skip report is due once a source has this many ids skipped.
pub const SKIP_LOG_MAX_COUNT: usize = 200;

/// A skip report is due once a source's skips have been quiet this long.
pub const SKIP_LOG_MAX_AGE_MS: u64 = 2000;

/// What takes the messages of the sources: the albums being gathered, the texts held
/// back, the messages being sent, and the skipped ids awaiting a report.
pub struct Intake {
    pub albums: AlbumAggregator,
    pub text_merge: TextMergeManager,
    pub inflight: InflightTracker,
    pub skip_log: SkipLogAggregator,
}

/// Where a message went.
pub enum Route {
    /// An edit replaced a message held in an album or as text.
    EditApplied,
    /// The message was processed already; it was skipped, with the skip reports that
    /// became due.
    Processed(Vec<SkipReport>),
    /// The message is being sent already.
    InFlight,
    /// The message joined an album that is still gathering.
    AlbumPending,
    /// The message completed an album: its messages in id order, to send.
    AlbumDue(Vec<MessageView>),
    /// The text is held back for an album that may follow.
    TextHeld,
    /// The message is sent on its own.
    Single(MessageView),
}

/// Whether an edit replaces a part of a gathering album.
pub open spec fn album_edit_hit(albums: Seq<AlbumSpec>, m: MessageSpec, source: Seq<char>) -> bool {
    match m.album_id {
        Some(aid) => album_index(albums, source, aid) is Some,
        None => false,
    }
}

/// The albums after an edit replaced a part of the album it belongs to.
pub open spec fn album_edited(albums: Seq<AlbumSpec>, m: MessageSpec, source: Seq<char>, now: u64) -> Seq<
    AlbumSpec,
> {
    let i = album_index(albums, source, m.album_id.unwrap()).unwrap();
    albums.update(i, AlbumSpec { messages: insert_by_id(albums[i].messages, m), last_update: now, ..albums[i] })
}

/// Whether an edit without media replaces the text held back for its source.
pub open spec fn text_edit_hit(
    entries: Map<Seq<char>, CacheSpec>,
    window: u64,
    min_len: usize,
    m: MessageSpec,
    source: Seq<char>,
) -> bool {
    &&& m.media is None
    &&& window > 0
    &&& entries.contains_key(source)
    &&& entries[source].message.id == m.id
    &&& long_enough(m.text, min_len)
}

/// The entry under which a text is held back at `now`.
pub open spec fn held_entry(m: MessageSpec, now: u64, window: u64) -> CacheSpec {
    CacheSpec { message: as_held(m), expires_at: (now + window) as u64 }
}

/// Whether a new text without media is held back.
pub open spec fn text_held(m: MessageSpec, window: u64, min_len: usize) -> bool {
    m.media is None && window > 0 && long_enough(m.text, min_len)
}

impl Intake {
    /// Every part well formed.
    pub open spec fn wf(&self) -> bool {
        &&& self.albums.wf()
        &&& self.text_merge.wf()
        &&& self.inflight.wf()
        &&& self.skip_log.wf()
    }

    /// Nothing gathered, held, in flight or skipped; albums of at most
    /// `album_max_items` parts, texts held back for `merge_window_ms` when they have at
    /// least `min_len` bytes, for albums at most `max_id_gap` ids later.
    pub fn new(album_max_items: usize, merge_window_ms: u64, min_len: usize, max_id_gap: usize) -> (r: Self)
        ensures
            r.wf(),
            r.albums.albums() == Seq::<AlbumSpec>::empty(),
            r.albums.spec_max_items() == album_max_items,
            r.text_merge.entries() == Map::<Seq<char>, CacheSpec>::empty(),
            r.text_merge.spec_window() == merge_window_ms,
            r.text_merge.spec_min_len() == min_len,
            r.text_merge.spec_max_id_gap() == max_id_gap,
            r.inflight@ == Map::<Seq<char>, Set<i64>>::empty(),
            r.skip_log.batches() == Map::<Seq<char>, crate::skip_log::BatchSpec>::empty(),
            r.skip_log.limits() == (SKIP_LOG_MAX_RANGES, SKIP_LOG_MAX_COUNT, SKIP_LOG_MAX_AGE_MS),
    {
        Intake {
            albums: AlbumAggregator::new(album_max_items),
            text_merge: TextMergeManager::new(merge_window_ms, min_len, max_id_gap),
            inflight: InflightTracker::new(),
            skip_log: SkipLogAggregator::new(SKIP_LOG_MAX_RANGES, SKIP_LOG_MAX_COUNT, SKIP_LOG_MAX_AGE_MS),
        }
    }

    /// Takes `message` of `source_key` at `now`, with `state` telling which messages
    /// were processed. First the skip reports whose batches went quiet come due (the
    /// first result). Then: an edit that replaces an album part or the held-back text is
    /// `EditApplied`; a processed message is skipped and recorded; one being sent is
    /// `InFlight`; otherwise it is marked in flight and gathered into its album
    /// (`AlbumDue` when that completes it), held back as text, or sent on its own.
    pub fn route(&mut self, state: &StateStore, message: MessageView, source_key: &str, now: u64) -> (r: (
        Vec<SkipReport>,
        Route,
    ))
        requires
            old(self).wf(),
            state.wf(),
            now + old(self).text_merge.spec_window() <= u64::MAX,
        ensures
            final(self).wf(),
            final(self).albums.spec_max_items() == old(self).albums.spec_max_items(),
            final(self).text_merge.spec_window() == old(self).text_merge.spec_window(),
            final(self).text_merge.spec_min_len() == old(self).text_merge.spec_min_len(),
            final(self).text_merge.spec_max_id_gap() == old(self).text_merge.spec_max_id_gap(),
            final(self).skip_log.limits() == old(self).skip_log.limits(),
            ({
                let m = message@;
                let key = source_key@;
                let a0 = old(self).albums.albums();
                let t0 = old(self).text_merge.entries();
                let w = old(self).text_merge.spec_window();
                let ml = old(self).text_merge.spec_min_len();
                let lim = old(self).skip_log.limits();
                let b1 = flushed(old(self).skip_log.batches(), now, lim.2, false);
                let edit = m.is_edit && (album_edit_hit(a0, m, key) || text_edit_hit(t0, w, ml, m, key));
                let done = state.processed(key_view(Some(source_key)), m.id);
                let busy = old(self).inflight@.contains_key(key) && old(self).inflight@[key].contains(m.id);
                let rec = record_outcome(
                    if b1.contains_key(key) {
                        Some(b1[key])
                    } else {
                        None
                    },
                    key,
                    m.id,
                    now,
                    lim.0,
                    lim.1,
                    lim.2,
                );
                &&& flush_reports(
                    old(self).skip_log.batches(),
                    now,
                    lim.2,
                    false,
                    r.0@.map_values(|x: SkipReport| report_view(x)),
                )
                &&& (r.1 is EditApplied <==> edit)
                &&& edit ==> {
                    &&& final(self).inflight@ == old(self).inflight@
                    &&& final(self).skip_log.batches() == b1
                    &&& if album_edit_hit(a0, m, key) {
                        &&& final(self).albums.albums() == album_edited(a0, m, key, now)
                        &&& final(self).text_merge.entries() == t0
                    } else {
                        &&& final(self).albums.albums() == a0
                        &&& final(self).text_merge.entries() == t0.insert(key, held_entry(m, now, w))
                    }
                }
                &&& !edit ==> {
                    &&& (r.1 is Processed <==> done)
                    &&& done ==> {
                        &&& r.1 matches Route::Processed(reps) && reps@.map_values(
                            |x: SkipReport| report_view(x),
                        ) == rec.1
                        &&& final(self).skip_log.batches() == b1.insert(key, rec.0)
                        &&& final(self).inflight@ == old(self).inflight@
                        &&& final(self).albums.albums() == a0
                        &&& final(self).text_merge.entries() == t0
                    }
                    &&& !done ==> final(self).skip_log.batches() == b1
                    &&& !done ==> (r.1 is InFlight <==> busy)
                    &&& (!done && busy) ==> {
                        &&& final(self).inflight@ == old(self).inflight@
                        &&& final(self).albums.albums() == a0
                        &&& final(self).text_merge.entries() == t0
                    }
                    &&& (!done && !busy) ==> {
                        &&& final(self).inflight@ == inflight_begun(old(self).inflight@, key, m.id)
                        &&& match m.album_id {
                            Some(_) => {
                                let (v2, fl) = after_add(a0, old(self).albums.spec_max_items(), m, key, now);
                                &&& final(self).albums.albums() == v2
                                &&& final(self).text_merge.entries() == t0
                                &&& match fl {
                                    Some(ms) => r.1 matches Route::AlbumDue(out) && message_views(out@)
                                        == ms,
                                    None => r.1 is AlbumPending,
                                }
                            },
                            None => {
                                &&& final(self).albums.albums() == a0
                                &&& if text_held(m, w, ml) {
                                    &&& r.1 is TextHeld
                                    &&& final(self).text_merge.entries() == t0.insert(key, held_entry(m, now, w))
                                } else {
                                    &&& r.1 matches Route::Single(out) && out@ == m
                                    &&& final(self).text_merge.entries() == t0
                                }
                            },
                        }
                    }
                }
            }),
    {
        let reports = self.skip_log.flush_expired(now);
        if message.is_edit {
            if message.album_id.is_some() {
                if self.albums.update_if_cached(message.duplicate(), source_key, now) {
                    return (reports, Route::EditApplied);
                }
            }
            if message.media.is_none() {
                if self.text_merge.update_cached_text(source_key, &message, now) {
                    return (reports, Route::EditApplied);
                }
            }
        }
        if state.is_processed(Some(source_key), message.id) {
            let skipped = self.skip_log.record(source_key, message.id, now);
            return (reports, Route::Processed(skipped));
        }
        let ghost before = self.inflight@;
        if !self.inflight.try_begin(source_key, message.id) {
            proof {
                assert(before[source_key@].insert(message@.id) =~= before[source_key@]);
                assert(inflight_begun(before, source_key@, message@.id) =~= before);
            }
            return (reports, Route::InFlight);
        }
        if message.album_id.is_some() {
            return match self.albums.add_message(message, source_key, now) {
                AlbumAction::Flush(ms) => (reports, Route::AlbumDue(ms)),
                _ => (reports, Route::AlbumPending),
            };
        }
        if message.media.is_none() {
            if self.text_merge.cache_text(source_key, &message, now) {
                return (reports, Route::TextHeld);
            }
        }
        (reports, Route::Single(message))
    }
}

} // verus!
