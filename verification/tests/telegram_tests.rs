use tgforward::forward::should_reconnect;
use tgforward::model::MediaType;
use tgforward::telegram::{
    dialog_peer, document_media, keeps_message, pick_thumb, stream_error_step, DialogPeer,
    HistoryScan, RawDocument, StreamAction, ThumbKind, MAX_CONSECUTIVE_ERRORS,
};

fn raw_doc(mime: Option<&str>, name: &str, width: i32) -> RawDocument {
    RawDocument {
        id: 55,
        access_hash: 9,
        file_reference: vec![1, 2],
        size: 2048,
        name: name.to_string(),
        mime_type: mime.map(|m| m.to_string()),
        width,
        height: 0,
        duration: Some(12),
        thumb_type: None,
        thumb_bytes: None,
        spoiler: true,
    }
}

#[test]
fn dialog_ids_map_to_peers() {
    assert_eq!(dialog_peer(-1001234567890), DialogPeer::Channel(1234567890));
    assert_eq!(dialog_peer(-1000000000000), DialogPeer::Channel(0));
    assert_eq!(dialog_peer(-4567), DialogPeer::Chat(4567));
    assert_eq!(dialog_peer(0), DialogPeer::User(0));
    assert_eq!(dialog_peer(777), DialogPeer::User(777));
}

#[test]
fn thumb_prefers_smallest_normal_size() {
    let sizes = vec![
        (ThumbKind::Stripped, 10),
        (ThumbKind::Size, 500),
        (ThumbKind::Progressive, 300),
        (ThumbKind::Size, 300),
    ];
    assert_eq!(pick_thumb(&sizes), Some(2));
}

#[test]
fn thumb_falls_back_to_any_usable_size() {
    let sizes = vec![(ThumbKind::Empty, 1), (ThumbKind::Path, 40), (ThumbKind::Stripped, 20)];
    assert_eq!(pick_thumb(&sizes), Some(2));
    let empty = vec![(ThumbKind::Empty, 1), (ThumbKind::Empty, 2)];
    assert_eq!(pick_thumb(&empty), None);
    assert_eq!(pick_thumb(&[]), None);
}

#[test]
fn video_mime_makes_a_video() {
    let m = document_media(raw_doc(Some("video/mp4"), "clip.mp4", 640));
    assert_eq!(m.media_type, MediaType::Video);
    assert_eq!(m.file_name.as_deref(), Some("clip.mp4"));
    assert_eq!(m.width, Some(640));
    assert_eq!(m.height, None);
    assert_eq!(m.size_bytes, 2048);
    assert_eq!(m.media_id, Some(55));
    assert_eq!(m.duration, Some(12));
    assert!(m.spoiler);
}

#[test]
fn other_documents_stay_documents() {
    let m = document_media(raw_doc(Some("application/pdf"), "", 0));
    assert_eq!(m.media_type, MediaType::Document);
    assert_eq!(m.file_name, None);
    assert_eq!(m.width, None);
    let n = document_media(raw_doc(None, "a.bin", 0));
    assert_eq!(n.media_type, MediaType::Document);
    assert_eq!(n.mime_type, None);
}

#[test]
fn blank_messages_without_media_are_dropped() {
    assert!(!keeps_message("  \n\t", false));
    assert!(keeps_message("  \n\t", true));
    assert!(keeps_message(" hi ", false));
    assert!(!keeps_message("", false));
}

#[test]
fn history_scan_stops_at_known_id() {
    let mut scan = HistoryScan::new();
    scan.start_page();
    assert!(scan.see(120, 100));
    assert!(scan.see(110, 100));
    assert_eq!(scan.offset_id, 110);
    assert!(!scan.finished(2));
    scan.start_page();
    assert!(scan.see(105, 100));
    assert!(!scan.see(100, 100));
    assert_eq!(scan.offset_id, 105);
    assert!(scan.finished(100));
}

#[test]
fn history_scan_ends_on_short_page() {
    let mut scan = HistoryScan::new();
    scan.start_page();
    assert!(scan.see(9, 0));
    assert!(scan.finished(50));
    assert!(!scan.finished(1));
}

#[test]
fn stream_errors_retry_then_stop() {
    assert_eq!(stream_error_step(0, true), (1, StreamAction::Retry));
    assert_eq!(stream_error_step(8, true), (9, StreamAction::Retry));
    assert_eq!(stream_error_step(MAX_CONSECUTIVE_ERRORS - 1, true), (10, StreamAction::Stop));
    assert_eq!(stream_error_step(3, false), (4, StreamAction::ReportCrash));
    assert_eq!(stream_error_step(u32::MAX, true), (u32::MAX, StreamAction::Stop));
}

#[test]
fn network_errors_cause_reconnect() {
    assert!(should_reconnect("Read error: connection reset by peer"));
    assert!(should_reconnect("request TIMED OUT"));
    assert!(should_reconnect("Network unreachable"));
    assert!(!should_reconnect("FLOOD_WAIT_30"));
    assert!(!should_reconnect(""));
}
