use std::collections::VecDeque;
use std::hash::{Hash, Hasher};
use tgforward::dedup::{DedupConfig, DedupDecision, DedupState, MessageDeduplicator};
use tgforward::dedup_store::{DedupFile, DedupLoadError, DedupStore};
use tgforward::model::{MediaType, MediaView};
use tgforward::signature::{id_signature, meta_signature};
use tgforward::similarity::{hamming_distance, jaccard_above, text_feature_hashes, text_fingerprint};
use tgforward::state::{normalize_source_key, CommittedIds, FileField, StateFile, StateLoadError, StateStore};

fn config() -> DedupConfig {
    DedupConfig {
        limit: 100,
        media_limit: 100,
        hamming_threshold: 3,
        jaccard_short_threshold_ppm: 700_000,
        jaccard_long_threshold_ppm: 500_000,
        recent_text_limit: 100,
        thumb_phash_threshold: 10,
        thumb_dhash_threshold: 10,
        album_thumb_ratio_ppm: 340_000,
        short_text_threshold: 50,
    }
}

fn photo(id: i64) -> MediaView {
    MediaView {
        media_type: MediaType::Photo,
        size_bytes: 10,
        file_name: None,
        mime_type: None,
        width: Some(4),
        height: Some(3),
        duration: None,
        media_id: Some(id),
        access_hash: 9,
        file_reference: Vec::new(),
        thumb_type: None,
        thumb_bytes: None,
        spoiler: false,
    }
}

fn sip(s: &str) -> u64 {
    let mut h = siphasher::sip::SipHasher::new();
    s.hash(&mut h);
    h.finish()
}

const LONG_TEXT: &str = "The quick brown fox jumps over the lazy dog near the river bank today";

#[test]
fn feature_hashes_use_siphash_of_four_char_windows() {
    assert_eq!(text_feature_hashes("ab"), vec![sip("ab")]);
    assert_eq!(text_feature_hashes("A-bcde"), vec![sip("abcd"), sip("bcde")]);
    assert!(text_feature_hashes("!!!").is_empty());
    assert_eq!(text_fingerprint("..."), 0);
    assert_ne!(text_fingerprint("hello"), 0);
}

#[test]
fn hamming_and_jaccard() {
    assert_eq!(hamming_distance(0b1011, 0b0001), 2);
    assert_eq!(hamming_distance(u64::MAX, 0), 64);
    assert!(jaccard_above(&vec![1, 2, 3], &vec![1, 2, 3], 999_999));
    assert!(!jaccard_above(&vec![1, 2], &vec![2, 3], 500_000));
    assert!(jaccard_above(&vec![1, 2], &vec![2, 3], 300_000));
    assert!(!jaccard_above(&vec![], &vec![1], 0));
}

#[test]
fn media_signatures_spell_out_the_fields() {
    let p = photo(7);
    assert_eq!(id_signature(&p), "photo_id_7_hash_9_size_10");
    assert_eq!(meta_signature(&p), "photo_meta_size_10_wh_Some(4)xSome(3)");
    let mut d = photo(8);
    d.media_type = MediaType::Document;
    d.mime_type = Some("image/png".to_string());
    assert_eq!(id_signature(&d), "doc_id_8_hash_9_size_10_mime_Some(\"image/png\")");
    assert_eq!(meta_signature(&d), "doc_meta_size_10_mime_Some(\"image/png\")");
    let mut v = photo(1);
    v.media_type = MediaType::Video;
    v.duration = Some(5);
    assert_eq!(id_signature(&v), "video_id_1_hash_9_size_10_dur_Some(5)");
    assert_eq!(meta_signature(&v), "video_meta_size_10_duration_Some(5)");
}

#[test]
fn recorded_text_is_a_duplicate() {
    let mut d = MessageDeduplicator::new(config());
    let c = match d.check_text_and_meta(LONG_TEXT, &[]) {
        DedupDecision::Unique(c) => c,
        _ => panic!("first sight must be unique"),
    };
    d.record_candidate(c);
    assert!(matches!(d.check_text_and_meta(LONG_TEXT, &[]), DedupDecision::Duplicate));
    assert!(matches!(
        d.check_text_and_meta("Completely different words about programming languages", &[]),
        DedupDecision::Unique(_)
    ));
}

#[test]
fn staged_text_is_a_duplicate_until_rolled_back() {
    let mut d = MessageDeduplicator::new(config());
    let c = match d.check_text_and_meta(LONG_TEXT, &[]) {
        DedupDecision::Unique(c) => c,
        _ => panic!("first sight must be unique"),
    };
    let info = d.stage_candidate(c, Vec::new());
    assert!(matches!(d.check_text_and_meta(LONG_TEXT, &[]), DedupDecision::Duplicate));
    d.rollback_pending(info);
    assert!(matches!(d.check_text_and_meta(LONG_TEXT, &[]), DedupDecision::Unique(_)));
}

#[test]
fn committed_candidate_stays_a_duplicate() {
    let mut d = MessageDeduplicator::new(config());
    let c = match d.check_text_and_meta(LONG_TEXT, &[]) {
        DedupDecision::Unique(c) => c,
        _ => panic!("first sight must be unique"),
    };
    let info = d.stage_candidate(c, Vec::new());
    d.commit_pending(info);
    assert!(d.take_all_pending().is_empty());
    assert!(matches!(d.check_text_and_meta(LONG_TEXT, &[]), DedupDecision::Duplicate));
    let snap = d.snapshot();
    assert_eq!(snap.fingerprints.len(), 1);
    let restored = MessageDeduplicator::from_snapshot(config(), Some(snap));
    assert!(matches!(restored.check_text_and_meta(LONG_TEXT, &[]), DedupDecision::Duplicate));
}

#[test]
fn media_messages_ask_for_thumbnails_then_match_by_signature() {
    let mut d = MessageDeduplicator::new(config());
    let media = vec![photo(7)];
    let c = match d.check_text_and_meta(LONG_TEXT, &media) {
        DedupDecision::NeedThumb(c) => c,
        _ => panic!("media needs a thumbnail check"),
    };
    assert!(!d.check_thumb(&[(1, 2)]));
    d.record_candidate(c);
    d.record_thumb_hash((1, 2));
    assert!(d.check_thumb(&[(1, 3)]));
    assert!(matches!(d.check_text_and_meta("", &media), DedupDecision::Duplicate));
}

#[test]
fn dedup_store_records_fingerprints_and_signatures() {
    let mut s = DedupStore::new(2, 2);
    assert!(!s.is_dirty());
    s.add_fingerprint(42);
    assert!(s.contains_fingerprint(42));
    assert!(s.hamming_distance(0b111, 0b100, 2));
    assert!(!s.hamming_distance(0b111, 0b000, 2));
    s.add_media_id("a".to_string(), 2);
    s.add_media_id("b".to_string(), 2);
    s.add_media_id("c".to_string(), 2);
    assert!(!s.contains_media_id("a"));
    assert!(s.contains_media_id("b") && s.contains_media_id("c"));
    assert_eq!(s.media_id_signatures(), VecDeque::from(vec!["b".to_string(), "c".to_string()]));
    s.add_media_meta("m".to_string(), 2);
    assert!(s.contains_media_meta("m"));
    assert!(s.flush());
    assert!(!s.flush());
    assert!(DedupStore::is_supported_version(5));
    assert!(DedupStore::is_supported_version(6));
    assert!(DedupStore::is_supported_version(2));
    assert!(!DedupStore::is_supported_version(3));
    assert!(!DedupStore::is_supported_version(0));
    assert_eq!(s.version(), 6);
}

#[test]
fn source_keys_are_normalized() {
    assert_eq!(normalize_source_key(" https://t.me/@chan "), "chan");
    assert_eq!(normalize_source_key("t.me/x"), "x");
    assert_eq!(normalize_source_key("http://t.me/y"), "y");
    assert_eq!(normalize_source_key("@@z"), "z");
}

#[test]
fn marked_messages_are_processed() {
    let mut s = StateStore::new();
    assert!(!s.is_processed(Some("chan"), 1));
    s.mark_processed_at(Some("chan"), 1, 300_000, 0);
    assert!(s.is_processed(Some("https://t.me/chan"), 1));
    assert_eq!(s.get_min_id("chan"), 1);
    s.mark_processed_at(Some("chan"), 3, 300_000, 10);
    assert!(s.is_processed(Some("chan"), 3));
    assert!(!s.is_processed(Some("chan"), 2));
    assert_eq!(s.get_min_id("chan"), 1);
    s.mark_processed_at(Some("chan"), 2, 300_000, 20);
    assert_eq!(s.get_min_id("chan"), 3);
    assert!(s.is_dirty());
    assert!(s.flush());
    assert!(!s.is_dirty());
}

#[test]
fn gaps_are_skipped_after_the_timeout() {
    let mut s = StateStore::new();
    s.mark_processed_at(None, 1, 1000, 0);
    s.mark_processed_at(None, 5, 1000, 100);
    assert_eq!(s.get_min_id("any"), 1);
    s.mark_processed_at(None, 7, 1000, 1200);
    assert_eq!(s.get_min_id("any"), 5);
}

#[test]
fn pending_overflow_moves_the_committed_id() {
    let mut s = StateStore::new();
    s.set_gap_config(2, 300);
    s.mark_processed_at(Some("k"), 10, 300_000, 0);
    s.mark_processed_at(Some("k"), 20, 300_000, 0);
    s.mark_processed_at(Some("k"), 30, 300_000, 0);
    assert_eq!(s.get_min_id("k"), 10);
    assert!(s.is_processed(Some("k"), 5));
    assert!(s.is_processed(Some("k"), 30));
}

#[test]
fn migration_merges_progress() {
    let mut s = StateStore::new();
    s.mark_processed_at(Some("old"), 1, 300_000, 0);
    s.mark_processed_at(Some("old"), 2, 300_000, 0);
    s.migrate_source_key("old", "-1001");
    assert!(s.is_processed(Some("-1001"), 2));
    assert_eq!(s.get_min_id("-1001"), 2);
}

#[test]
fn saved_state_loads_back() {
    let mut s = StateStore::new();
    s.load_last_committed(CommittedIds::PerSource(vec![("https://t.me/a".to_string(), 5)]));
    s.load_pending(vec![("a".to_string(), vec![3, 7, 9])]);
    assert_eq!(s.get_min_id("a"), 5);
    assert!(s.is_processed(Some("a"), 7));
    assert!(!s.is_processed(Some("a"), 6));
    let pending = s.pending_ids();
    assert_eq!(pending, vec![("a".to_string(), vec![7, 9])]);
    let mut d = StateStore::new();
    d.load_last_committed(CommittedIds::Single(4));
    d.load_pending_default(vec![2, 6]);
    assert_eq!(d.pending_ids_default(), vec![6]);
    assert!(matches!(d.committed_ids(), CommittedIds::Single(4)));
}

fn same_history(a: &DedupState, b: &DedupState) -> bool {
    a.fingerprints == b.fingerprints
        && a.media_id_signatures == b.media_id_signatures
        && a.media_meta_signatures == b.media_meta_signatures
        && a.media_thumb_hashes == b.media_thumb_hashes
        && a.recent_text_features == b.recent_text_features
}

#[test]
fn staging_keeps_the_snapshot_and_marks_the_candidate_known() {
    let mut d = MessageDeduplicator::new(config());
    let media = vec![photo(7)];
    let c = match d.check_text_and_meta(LONG_TEXT, &media) {
        DedupDecision::NeedThumb(c) => c,
        _ => panic!("media needs a thumbnail check"),
    };
    let before = d.snapshot();
    let info = d.stage_candidate(c, vec![(1, 2)]);
    assert!(same_history(&before, &d.snapshot()));
    assert!(matches!(d.check_text_and_meta("", &media), DedupDecision::Duplicate));
    assert!(d.check_thumb(&[(1, 2)]));
    let staged = d.take_all_pending();
    assert_eq!(staged.len(), 1);
    assert!(staged[0].same(&info));
}

#[test]
fn rollback_on_an_idle_deduplicator_restores_it() {
    let mut d = MessageDeduplicator::new(config());
    let media = vec![photo(7)];
    let c = match d.check_text_and_meta(LONG_TEXT, &media) {
        DedupDecision::NeedThumb(c) => c,
        _ => panic!("media needs a thumbnail check"),
    };
    let before = d.snapshot();
    let info = d.stage_candidate(c, vec![(1, 2)]);
    d.rollback_pending(info);
    assert!(same_history(&before, &d.snapshot()));
    assert!(matches!(d.check_text_and_meta(LONG_TEXT, &media), DedupDecision::NeedThumb(_)));
    assert!(!d.check_thumb(&[(1, 2)]));
    assert!(d.take_all_pending().is_empty());
}

#[test]
fn commit_equals_recording_the_candidate_and_its_hashes() {
    let media = vec![photo(7), photo(8)];
    let mut d1 = MessageDeduplicator::new(config());
    let mut d2 = MessageDeduplicator::new(config());
    let c = match d1.check_text_and_meta(LONG_TEXT, &media) {
        DedupDecision::NeedThumb(c) => c,
        _ => panic!("media needs a thumbnail check"),
    };
    let hashes = vec![(1, 2), (3, 4)];
    d2.record_candidate(c.duplicate());
    for h in hashes.iter() {
        d2.record_thumb_hash(*h);
    }
    let info = d1.stage_candidate(c, hashes);
    d1.commit_pending(info);
    assert!(same_history(&d1.snapshot(), &d2.snapshot()));
    assert!(d1.take_all_pending().is_empty());
    assert_eq!(d1.snapshot().media_id_signatures.len(), 2);
    assert_eq!(d1.snapshot().media_thumb_hashes.len(), 2);
}

#[test]
fn a_snapshot_within_the_limits_is_restored_as_saved() {
    let snap = DedupState {
        fingerprints: VecDeque::from(vec![1, 2, 3]),
        media_id_signatures: VecDeque::from(vec!["a".to_string(), "b".to_string()]),
        media_meta_signatures: VecDeque::from(vec!["m".to_string()]),
        media_thumb_hashes: VecDeque::from(vec![(1, 2)]),
        recent_text_features: VecDeque::from(vec![vec![5, 6]]),
    };
    let d = MessageDeduplicator::from_snapshot(config(), Some(snap));
    let expected = DedupState {
        fingerprints: VecDeque::from(vec![1, 2, 3]),
        media_id_signatures: VecDeque::from(vec!["a".to_string(), "b".to_string()]),
        media_meta_signatures: VecDeque::from(vec!["m".to_string()]),
        media_thumb_hashes: VecDeque::from(vec![(1, 2)]),
        recent_text_features: VecDeque::from(vec![vec![5, 6]]),
    };
    assert!(same_history(&d.snapshot(), &expected));
    let empty = MessageDeduplicator::from_snapshot(config(), None).snapshot();
    assert!(empty.fingerprints.is_empty() && empty.media_id_signatures.is_empty());
}

fn state_file(
    committed: FileField<CommittedIds>,
    message: FileField<CommittedIds>,
    pending: FileField<Vec<(String, Vec<i64>)>>,
    pending_default: FileField<Vec<i64>>,
) -> StateFile {
    StateFile { last_committed_id: committed, last_message_id: message, pending_ids: pending, pending_ids_default: pending_default }
}

#[test]
fn progress_file_in_the_current_format() {
    let file = state_file(
        FileField::Read(CommittedIds::PerSource(vec![("@a".to_string(), 5)])),
        FileField::Read(CommittedIds::Single(99)),
        FileField::Read(vec![("a".to_string(), vec![3, 7])]),
        FileField::Other,
    );
    let s = StateStore::from_file(file).ok().unwrap();
    assert_eq!(s.get_min_id("a"), 5);
    assert!(s.is_processed(Some("a"), 7));
    assert!(!s.is_processed(Some("a"), 6));
    assert_eq!(s.pending_ids(), vec![("a".to_string(), vec![7])]);
    assert!(!s.is_dirty());
}

#[test]
fn progress_file_in_the_older_format() {
    let file = state_file(
        FileField::Missing,
        FileField::Read(CommittedIds::Single(12)),
        FileField::Read(vec![("a".to_string(), vec![30])]),
        FileField::Read(vec![40]),
    );
    let s = StateStore::from_file(file).ok().unwrap();
    assert_eq!(s.get_min_id("anything"), 12);
    assert!(s.pending_ids().is_empty());
    assert!(s.pending_ids_default().is_empty());
    let other = StateStore::from_file(state_file(FileField::Other, FileField::Missing, FileField::Missing, FileField::Read(vec![3])))
        .ok()
        .unwrap();
    assert!(matches!(other.committed_ids(), CommittedIds::Single(0)));
    assert_eq!(other.pending_ids_default(), vec![3]);
    let empty = StateStore::from_file(state_file(FileField::Missing, FileField::Missing, FileField::Missing, FileField::Missing))
        .ok()
        .unwrap();
    assert!(matches!(empty.committed_ids(), CommittedIds::Single(0)));
}

#[test]
fn unreadable_or_out_of_range_progress_files_are_refused() {
    let bad = state_file(FileField::Unreadable, FileField::Missing, FileField::Missing, FileField::Missing);
    assert!(matches!(StateStore::from_file(bad), Err(StateLoadError::Unreadable)));
    let bad_old = state_file(FileField::Missing, FileField::Unreadable, FileField::Missing, FileField::Missing);
    assert!(matches!(StateStore::from_file(bad_old), Err(StateLoadError::Unreadable)));
    let ignored = state_file(FileField::Read(CommittedIds::Single(1)), FileField::Unreadable, FileField::Missing, FileField::Missing);
    assert!(StateStore::from_file(ignored).is_ok());
    let too_big = state_file(
        FileField::Read(CommittedIds::Single(1)),
        FileField::Missing,
        FileField::Missing,
        FileField::Read(vec![i64::MAX]),
    );
    assert!(matches!(StateStore::from_file(too_big), Err(StateLoadError::IdOutOfRange)));
}

fn dedup_file(version: Option<i64>) -> DedupFile {
    DedupFile {
        version,
        fingerprints: Some(VecDeque::from(vec![7])),
        media_id_signatures: Some(VecDeque::from(vec!["a".to_string(), "b".to_string(), "a".to_string()])),
        media_meta_signatures: None,
        media_thumb_hashes: Some(VecDeque::from(vec![(1, 2)])),
        recent_text_features: None,
    }
}

#[test]
fn dedup_file_versions_and_lists() {
    let s = DedupStore::from_file(dedup_file(Some(2)), 10, 10).ok().unwrap();
    assert_eq!(s.fingerprints(), VecDeque::from(vec![7]));
    assert_eq!(s.media_id_signatures(), VecDeque::from(vec!["b".to_string(), "a".to_string()]));
    assert!(s.media_meta_signatures().is_empty());
    assert!(s.recent_text_features().is_empty());
    assert_eq!(s.version(), 6);
    assert!(!s.is_dirty());
    assert!(DedupStore::from_file(dedup_file(Some(5)), 10, 10).is_ok());
    assert!(matches!(DedupStore::from_file(dedup_file(Some(3)), 10, 10), Err(DedupLoadError::UnsupportedVersion(3))));
    assert!(matches!(DedupStore::from_file(dedup_file(None), 10, 10), Err(DedupLoadError::UnsupportedVersion(0))));
}

#[test]
fn a_failed_write_keeps_changes_awaiting_a_save() {
    let mut d = DedupStore::new(2, 2);
    d.add_fingerprint(1);
    assert!(!d.settle_flush(false));
    assert!(d.is_dirty());
    assert!(d.settle_flush(true));
    assert!(!d.is_dirty());
    assert!(!d.settle_flush(true));
    let mut s = StateStore::new();
    s.mark_processed_at(Some("a"), 1, 300_000, 0);
    assert!(!s.settle_flush(false));
    assert!(s.is_dirty());
    assert!(s.settle_flush(true));
    assert!(!s.flush());
}

#[test]
fn deciding_on_features_matches_deciding_on_the_text() {
    let feats = text_feature_hashes(LONG_TEXT);
    let cleaned = tgforward::text::clean_text(LONG_TEXT);
    let mut d = MessageDeduplicator::new(config());
    let c = match d.check_features(LONG_TEXT.chars().count(), feats.clone(), cleaned.len(), &[]) {
        DedupDecision::Unique(c) => c,
        _ => panic!("first sight must be unique"),
    };
    assert_eq!(c.fp, text_fingerprint(LONG_TEXT));
    assert_eq!(c.text_features, feats);
    d.record_candidate(c);
    assert!(matches!(
        d.check_features(LONG_TEXT.chars().count(), feats, cleaned.len(), &[]),
        DedupDecision::Duplicate
    ));
    assert!(matches!(d.check_features(0, Vec::new(), 0, &[]), DedupDecision::Unique(_)));
}
