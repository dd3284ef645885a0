use tgforward::album::{AlbumAction, AlbumAggregator, AlbumKey};
use tgforward::dedup::{DedupConfig, MessageDeduplicator};
use tgforward::filter::KeywordFilter;
use tgforward::forward::{
    accept_processed, build_message_link, clear_album_ids, compute_backfill_range, extend_unique_messages, is_network_send_error,
    merge_message, normalize_album_messages, sanitize_identifier, send_extra, surviving_task, EntityExtra,
};
use tgforward::media_filter::MediaFilter;
use tgforward::model::{EntityType, MediaType, MediaView, MessageView, TextEntity};
use tgforward::pipeline::{AppenderFile, ContentAppender, Pipeline, PipelineConfig, PipelineResult, ProcessStep};
use tgforward::replace::TextReplacer;
use tgforward::text_merge::TextMergeManager;

fn flow_media() -> MediaView {
    MediaView {
        media_type: MediaType::Photo,
        size_bytes: 10,
        file_name: None,
        mime_type: None,
        width: None,
        height: None,
        duration: None,
        media_id: Some(3),
        access_hash: 0,
        file_reference: Vec::new(),
        thumb_type: None,
        thumb_bytes: None,
        spoiler: false,
    }
}

fn flow_msg(id: i64, text: &str, album: Option<i64>) -> MessageView {
    MessageView {
        id,
        chat_id: 0,
        text: text.to_string(),
        entities: Vec::new(),
        media: Some(flow_media()),
        album_id: album,
        is_edit: false,
    }
}

fn key(src: &str, album: i64) -> AlbumKey {
    AlbumKey { source_key: src.to_string(), album_id: album }
}

#[test]
fn album_collects_until_full() {
    let mut a = AlbumAggregator::new(3);
    assert!(matches!(a.add_message(flow_msg(1, "", None), "s", 0), AlbumAction::NotAlbum));
    assert!(matches!(a.add_message(flow_msg(2, "", Some(9)), "s", 0), AlbumAction::Cached));
    assert!(matches!(a.add_message(flow_msg(1, "", Some(9)), "s", 1), AlbumAction::Cached));
    assert!(a.has_pending_album("s"));
    assert!(!a.has_pending_album("t"));
    match a.add_message(flow_msg(3, "", Some(9)), "s", 2) {
        AlbumAction::Flush(ms) => assert_eq!(ms.iter().map(|m| m.id).collect::<Vec<_>>(), vec![1, 2, 3]),
        _ => panic!("a full album is flushed"),
    }
    assert!(!a.has_pending_album("s"));
}

#[test]
fn album_keeps_the_more_complete_copy() {
    let mut a = AlbumAggregator::new(10);
    a.add_message(flow_msg(1, "", Some(9)), "s", 0);
    a.add_message(flow_msg(1, "caption", Some(9)), "s", 1);
    a.add_message(flow_msg(1, "", Some(9)), "s", 2);
    let got = a.get(&key("s", 9)).unwrap();
    assert_eq!(got[0].text, "caption");
    let mut edited = flow_msg(1, "edit", Some(9));
    edited.is_edit = true;
    assert!(a.update_if_cached(edited, "s", 3));
    assert!(!a.update_if_cached(flow_msg(5, "x", Some(8)), "s", 3));
    assert_eq!(a.get(&key("s", 9)).unwrap()[0].text, "edit");
}

#[test]
fn albums_expire_after_the_delay() {
    let mut a = AlbumAggregator::new(10);
    a.add_message(flow_msg(1, "", Some(9)), "s", 1000);
    a.add_message(flow_msg(2, "", Some(8)), "t", 5000);
    let keys = a.expired_keys(3000, 5000);
    assert_eq!(keys.len(), 1);
    assert_eq!((keys[0].source_key.as_str(), keys[0].album_id), ("s", 9));
    assert_eq!(a.flush(&keys[0]).unwrap().len(), 1);
    assert!(a.flush(&keys[0]).is_none());
    let rest = a.drain_all();
    assert_eq!(rest.len(), 1);
    assert!(!a.has_pending_album("t"));
}

#[test]
fn held_text_joins_the_following_album() {
    let mut m = TextMergeManager::new(5000, 2, 3);
    assert!(m.cache_text("s", &flow_msg(10, "  intro text ", None), 0));
    assert!(!m.cache_text("s", &flow_msg(11, " ", None), 0));
    assert!(m.try_merge_for_album("s", 20, 100).is_none());
    let (text, _) = m.try_merge_for_album("s", 12, 100).unwrap();
    assert_eq!(text, "intro text");
    assert!(m.try_merge_for_album("s", 12, 100).is_none());
}

#[test]
fn held_text_expires() {
    let mut m = TextMergeManager::new(1000, 0, 5);
    assert!(m.cache_text("s", &flow_msg(10, "hello", None), 0));
    assert_eq!(m.get_expired_keys(2000), vec!["s".to_string()]);
    assert!(m.try_merge_for_album("s", 11, 2000).is_none());
    assert!(m.remove_message("s").is_none());
    assert!(m.cache_text("s", &flow_msg(10, "hello", None), 0));
    assert!(m.remove_message_if_expired("s", 500).is_none());
    let taken = m.take_expired(1500);
    assert_eq!(taken.len(), 1);
    assert!(m.take_all().is_empty());
    let off = TextMergeManager::new(0, 0, 5);
    let mut off = off;
    assert!(!off.cache_text("s", &flow_msg(1, "x", None), 0));
}

#[test]
fn identifiers_and_links() {
    assert_eq!(sanitize_identifier(" https://t.me/@@chan "), "chan");
    assert_eq!(
        build_message_link("x", -1001234567890, 5),
        Some("https://t.me/c/1234567890/5".to_string())
    );
    assert_eq!(build_message_link("@name", 0, 7), Some("https://t.me/name/7".to_string()));
    assert_eq!(build_message_link("-1009876543210", 0, 7), Some("https://t.me/c/9876543210/7".to_string()));
    assert_eq!(build_message_link("12345", 0, 7), None);
    assert_eq!(build_message_link("name", 0, 0), None);
}

#[test]
fn backfill_ranges() {
    assert_eq!(compute_backfill_range(10, 12, 7), Some((8, 14)));
    assert_eq!(compute_backfill_range(1, 2, 10), Some((1, 6)));
    assert_eq!(compute_backfill_range(10, 30, 5), None);
    assert_eq!(compute_backfill_range(0, 3, 5), None);
    assert_eq!(compute_backfill_range(5, 3, 5), None);
    assert_eq!(compute_backfill_range(5, 5, 0), None);
}

#[test]
fn network_errors_are_recognized() {
    assert!(is_network_send_error("Read error: Connection reset"));
    assert!(is_network_send_error("request TIMED OUT"));
    assert!(is_network_send_error("发送超时"));
    assert!(!is_network_send_error("FLOOD_WAIT"));
}

#[test]
fn merging_keeps_the_longer_text_and_fills_gaps() {
    let mut base = flow_msg(1, "short", None);
    base.media = None;
    base.chat_id = 0;
    let mut incoming = flow_msg(1, "a longer text", Some(4));
    incoming.chat_id = 77;
    merge_message(&mut base, incoming);
    assert_eq!(base.text, "a longer text");
    assert!(base.media.is_some());
    assert_eq!(base.album_id, Some(4));
    assert_eq!(base.chat_id, 77);
    let mut ms = vec![flow_msg(1, "", Some(4))];
    extend_unique_messages(&mut ms, vec![flow_msg(2, "", Some(4)), flow_msg(1, "cap", Some(4))]);
    assert_eq!(ms.len(), 2);
    assert_eq!(ms[0].text, "cap");
}

#[test]
fn held_text_is_appended_to_the_album_caption() {
    let mut ms = vec![flow_msg(1, "cap", Some(4)), flow_msg(2, "", Some(4))];
    let es = vec![TextEntity { offset: 0, length: 3, entity_type: EntityType::Bold, data: None }];
    normalize_album_messages(&mut ms, Some(("more".to_string(), es)), 1024);
    assert_eq!(ms[0].text, "cap\n\nmore");
    assert_eq!(ms[0].entities[0].offset, 5);
    let mut blank = vec![flow_msg(1, "cap", Some(4))];
    normalize_album_messages(&mut blank, Some(("  ".to_string(), Vec::new())), 1024);
    assert_eq!(blank[0].text, "cap");
    clear_album_ids(&mut ms);
    assert!(ms.iter().all(|m| m.album_id.is_none()));
}

fn pipeline(header: &str, footer: &str) -> Pipeline {
    let config = DedupConfig {
        limit: 100,
        media_limit: 100,
        hamming_threshold: 3,
        jaccard_short_threshold_ppm: 700_000,
        jaccard_long_threshold_ppm: 500_000,
        recent_text_limit: 100,
        thumb_phash_threshold: 10,
        thumb_dhash_threshold: 10,
        album_thumb_ratio_ppm: 340_000,
        short_text_threshold: 50,
    };
    let mut appender = ContentAppender::new();
    appender.header = header.to_string();
    appender.footer = footer.to_string();
    Pipeline::new(PipelineConfig {
        filter: KeywordFilter::new(false),
        replacer: TextReplacer::new(),
        deduplicator: MessageDeduplicator::new(config),
        appender,
        media_filter: MediaFilter::new(0, Vec::new(), true),
        has_thumb_hasher: false,
        append_limit_with_media: 1024,
        append_limit_text: 20,
    })
}

#[test]
fn header_and_footer_are_appended() {
    let p = pipeline("H", "F");
    let es = vec![TextEntity { offset: 0, length: 4, entity_type: EntityType::Bold, data: None }];
    let (t, out) = p.append_content("body", es, false);
    assert_eq!(t, "H\n\nbody\n\nF");
    assert_eq!(out[0].offset, 3);
    let (t, _) = p.append_content("a long body that will not fit", Vec::new(), false);
    assert_eq!(t, "H\n\na long body...\n\nF");
    assert_eq!(t.encode_utf16().count(), 20);
    let footer_only = pipeline("", "F");
    let (t, _) = footer_only.append_content("abcdefghijklmnopqrstuvwxyz", Vec::new(), false);
    assert_eq!(t, "abcdefghijklmn...\n\nF");
    assert!(t.encode_utf16().count() <= 20);
    let plain = pipeline("", "");
    let (t, _) = plain.append_content("  ", Vec::new(), false);
    assert_eq!(t, "");
}

#[test]
fn a_text_message_goes_through_once() {
    let mut p = pipeline("", "");
    let mut m = flow_msg(1, "A message long enough to be fingerprinted for deduplication", None);
    m.media = None;
    let first = match p.process_begin(&m, true) {
        ProcessStep::Done(r) => r,
        ProcessStep::HashThumbs(_) => panic!("no thumbnails without media"),
    };
    assert!(first.should_forward);
    assert!(first.dedup_info.is_some());
    match p.process_begin(&m, true) {
        ProcessStep::Done(r) => assert!(!r.should_forward),
        ProcessStep::HashThumbs(_) => panic!("no thumbnails without media"),
    }
    p.rollback_dedup(first.dedup_info.unwrap());
    match p.process_begin(&m, true) {
        ProcessStep::Done(r) => assert!(r.should_forward),
        ProcessStep::HashThumbs(_) => panic!("no thumbnails without media"),
    }
}

fn flow_result(forward: bool, text: &str, entities: Vec<TextEntity>, media: Vec<MediaView>) -> PipelineResult {
    PipelineResult {
        should_forward: forward,
        text: text.to_string(),
        entities,
        media_list: media,
        dedup_info: None,
    }
}

#[test]
fn refused_result_sends_nothing() {
    let out = accept_processed(flow_msg(1, "raw", None), flow_result(false, "", Vec::new(), Vec::new()), 10, 0, 0);
    assert!(out.is_none());
}

#[test]
fn accepted_result_takes_text_and_first_media() {
    let mut second = flow_media();
    second.media_id = Some(99);
    let out = accept_processed(
        flow_msg(2, "raw", None),
        flow_result(true, "done", Vec::new(), vec![second, flow_media()]),
        100,
        0,
        0,
    );
    let (m, info) = out.expect("forwarded");
    assert_eq!(m.text, "done");
    assert_eq!(m.id, 2);
    assert_eq!(m.media.map(|x| x.media_id), Some(Some(99)));
    assert!(info.is_none());
}

#[test]
fn long_caption_with_media_is_trimmed() {
    let es = vec![
        TextEntity { offset: 0, length: 4, entity_type: EntityType::Bold, data: None },
        TextEntity { offset: 5, length: 4, entity_type: EntityType::Italic, data: None },
    ];
    let out = accept_processed(
        flow_msg(3, "raw", None),
        flow_result(true, "aaaa\nbbbb\ncccc", es, vec![flow_media()]),
        10,
        0,
        0,
    );
    let (m, _) = out.expect("forwarded");
    assert_eq!(m.text, "aaaa");
    assert_eq!(m.entities.len(), 1);
    assert_eq!(m.entities[0].entity_type, EntityType::Bold);
}

#[test]
fn long_text_without_media_is_kept_whole() {
    let mut msg = flow_msg(4, "raw", None);
    msg.media = None;
    let out = accept_processed(msg, flow_result(true, "aaaa\nbbbb\ncccc", Vec::new(), Vec::new()), 10, 0, 0);
    let (m, _) = out.expect("forwarded");
    assert_eq!(m.text, "aaaa\nbbbb\ncccc");
    assert!(m.media.is_none());
}

#[test]
fn settling_commits_after_a_send_and_rolls_back_after_a_failure() {
    let text = "A message long enough to be fingerprinted for deduplication";
    let mut m = flow_msg(1, text, None);
    m.media = None;
    let mut p = pipeline("", "");
    let info = match p.process_begin(&m, true) {
        ProcessStep::Done(r) => r.dedup_info.unwrap(),
        ProcessStep::HashThumbs(_) => panic!("no thumbnails without media"),
    };
    p.settle_dedup(vec![info], false);
    assert!(p.dedup_snapshot().fingerprints.is_empty());
    let info = match p.process_begin(&m, true) {
        ProcessStep::Done(r) => {
            assert!(r.should_forward);
            r.dedup_info.unwrap()
        }
        ProcessStep::HashThumbs(_) => panic!("no thumbnails without media"),
    };
    p.settle_dedup(vec![info], true);
    assert_eq!(p.dedup_snapshot().fingerprints.len(), 1);
    assert!(p.take_all_pending().is_empty());
    match p.process_begin(&m, true) {
        ProcessStep::Done(r) => assert!(!r.should_forward),
        ProcessStep::HashThumbs(_) => panic!("no thumbnails without media"),
    }
}

#[test]
fn a_task_needs_a_surviving_message() {
    assert!(surviving_task("src".to_string(), Vec::new(), true, Vec::new()).is_none());
    let t = surviving_task("src".to_string(), vec![flow_msg(1, "a", Some(9)), flow_msg(2, "b", Some(9))], false, Vec::new())
        .unwrap();
    assert_eq!(t.source_key, "src");
    assert!(!t.is_album);
    assert_eq!(t.messages.len(), 2);
    assert!(t.messages.iter().all(|m| m.album_id.is_none()));
    assert_eq!(t.messages[1].id, 2);
}

#[test]
fn header_and_footer_come_from_their_file() {
    let a = ContentAppender::from_file(AppenderFile { header: Some("H".to_string()), footer: None });
    assert_eq!(a.header, "H");
    assert_eq!(a.footer, "");
}

fn entity(entity_type: EntityType, data: Option<&str>) -> TextEntity {
    TextEntity { offset: 0, length: 1, entity_type, data: data.map(|d| d.to_string()) }
}

#[test]
fn entities_without_their_data_are_not_sent() {
    assert!(send_extra(&entity(EntityType::TextUrl, None)).is_none());
    assert!(matches!(send_extra(&entity(EntityType::TextUrl, Some("https://x"))), Some(EntityExtra::Url(u)) if u == "https://x"));
    assert!(matches!(send_extra(&entity(EntityType::CustomEmoji, Some("-42"))), Some(EntityExtra::DocumentId(-42))));
    assert!(send_extra(&entity(EntityType::CustomEmoji, Some("x1"))).is_none());
    assert!(send_extra(&entity(EntityType::CustomEmoji, None)).is_none());
    assert!(matches!(send_extra(&entity(EntityType::Pre, None)), Some(EntityExtra::Language(l)) if l.is_empty()));
    assert!(matches!(send_extra(&entity(EntityType::Blockquote, Some("true"))), Some(EntityExtra::Collapsed(true))));
    assert!(matches!(send_extra(&entity(EntityType::Blockquote, Some("yes"))), Some(EntityExtra::Collapsed(false))));
    assert!(matches!(send_extra(&entity(EntityType::Bold, None)), Some(EntityExtra::Plain)));
}
