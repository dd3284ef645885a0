use tgforward::model::{MediaType, MediaView, MessageView};
use tgforward::routing::{Intake, Route};
use tgforward::state::StateStore;

fn route_media() -> MediaView {
    MediaView {
        media_type: MediaType::Photo,
        size_bytes: 10,
        file_name: None,
        mime_type: None,
        width: None,
        height: None,
        duration: None,
        media_id: Some(3),
        access_hash: 0,
        file_reference: Vec::new(),
        thumb_type: None,
        thumb_bytes: None,
        spoiler: false,
    }
}

fn route_msg(id: i64, text: &str, album: Option<i64>, with_media: bool, is_edit: bool) -> MessageView {
    MessageView {
        id,
        chat_id: -1001,
        text: text.to_string(),
        entities: Vec::new(),
        media: if with_media { Some(route_media()) } else { None },
        album_id: album,
        is_edit,
    }
}

fn kind(r: &Route) -> &'static str {
    match r {
        Route::EditApplied => "edit",
        Route::Processed(_) => "processed",
        Route::InFlight => "inflight",
        Route::AlbumPending => "album_pending",
        Route::AlbumDue(_) => "album_due",
        Route::TextHeld => "text_held",
        Route::Single(_) => "single",
    }
}

#[test]
fn plain_message_is_sent_alone_once() {
    let mut intake = Intake::new(10, 0, 0, 5);
    let state = StateStore::new();
    let (_, r) = intake.route(&state, route_msg(7, "hello", None, false, false), "src", 1000);
    match r {
        Route::Single(m) => assert_eq!(m.id, 7),
        other => panic!("unexpected route {}", kind(&other)),
    }
    let (_, again) = intake.route(&state, route_msg(7, "hello", None, false, false), "src", 1001);
    assert_eq!(kind(&again), "inflight");
}

#[test]
fn processed_message_is_skipped() {
    let mut intake = Intake::new(10, 0, 0, 5);
    let mut state = StateStore::new();
    state.mark_processed(Some("src"), 1);
    let (_, r) = intake.route(&state, route_msg(1, "hello", None, false, false), "src", 1000);
    assert_eq!(kind(&r), "processed");
}

#[test]
fn album_is_due_when_full() {
    let mut intake = Intake::new(2, 0, 0, 5);
    let state = StateStore::new();
    let (_, first) = intake.route(&state, route_msg(21, "", Some(9), true, false), "src", 1000);
    assert_eq!(kind(&first), "album_pending");
    let (_, second) = intake.route(&state, route_msg(20, "cap", Some(9), true, false), "src", 1001);
    match second {
        Route::AlbumDue(ms) => {
            let ids: Vec<i64> = ms.iter().map(|m| m.id).collect();
            assert_eq!(ids, vec![20, 21]);
        }
        other => panic!("unexpected route {}", kind(&other)),
    }
}

#[test]
fn text_is_held_and_edits_replace_it() {
    let mut intake = Intake::new(10, 5000, 1, 5);
    let state = StateStore::new();
    let (_, held) = intake.route(&state, route_msg(30, "before album", None, false, false), "src", 1000);
    assert_eq!(kind(&held), "text_held");
    let (_, edited) = intake.route(&state, route_msg(30, "edited text", None, false, true), "src", 1200);
    assert_eq!(kind(&edited), "edit");
    let merged = intake.text_merge.try_merge_for_album("src", 31, 1300);
    assert_eq!(merged.map(|(t, _)| t), Some("edited text".to_string()));
}

#[test]
fn edit_of_gathering_album_part_is_applied() {
    let mut intake = Intake::new(10, 0, 0, 5);
    let state = StateStore::new();
    let (_, first) = intake.route(&state, route_msg(40, "old", Some(4), true, false), "src", 1000);
    assert_eq!(kind(&first), "album_pending");
    let (_, edit) = intake.route(&state, route_msg(40, "new", Some(4), true, true), "src", 1100);
    assert_eq!(kind(&edit), "edit");
    let (_, other_source) = intake.route(&state, route_msg(40, "new", Some(4), true, true), "other", 1100);
    assert_eq!(kind(&other_source), "album_pending");
}
