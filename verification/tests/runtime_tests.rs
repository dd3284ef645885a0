use tgforward::delivery::{
    clamp_history_page_limit, next_flood_step, CallOutcome, FloodFailure, FloodStep, FloodWaitPolicy,
    FloodWaitState, MessageSender, SendPlan,
};
use tgforward::forward::ForwardTask;
use tgforward::gap_log::{parse_gap_message, GapLogAggregator, GapLogItem};
use tgforward::maintenance::{is_sqlite_header, rotate_log_content, SessionCleaner};
use tgforward::model::{MediaType, MediaView, MessageView};
use tgforward::runner::{
    absorb_backfill, album_backfill_plan, catch_up_tasks, effective_min_id, live_step, order_by_id, past_batch,
    past_start_id, past_step, requeue_inflight, task_message_ids, InflightTracker, LiveEvent, LoopStep,
    PastEvent, Registration, RunOutcome, SourceRegistry,
};
use tgforward::skip_log::{ServiceSkipLog, SkipLogAggregator, SkipLogBatch};
use tgforward::thumbs::{build_thumb_name, dhash_from_pixels, is_orphan_thumb, should_hash};
use tgforward::timing::{time_until, SendThrottle, TimeoutWindow};

fn rt_media(kind: MediaType) -> MediaView {
    MediaView {
        media_type: kind,
        size_bytes: 10,
        file_name: None,
        mime_type: None,
        width: None,
        height: None,
        duration: None,
        media_id: Some(7),
        access_hash: 0,
        file_reference: Vec::new(),
        thumb_type: None,
        thumb_bytes: None,
        spoiler: false,
    }
}

fn rt_msg(id: i64, text: &str, album: Option<i64>, with_media: bool) -> MessageView {
    MessageView {
        id,
        chat_id: -100,
        text: text.to_string(),
        entities: Vec::new(),
        media: if with_media { Some(rt_media(MediaType::Photo)) } else { None },
        album_id: album,
        is_edit: false,
    }
}

#[test]
fn time_until_is_zero_once_past() {
    assert_eq!(time_until(1500, 1000), 500);
    assert_eq!(time_until(1000, 1000), 0);
    assert_eq!(time_until(900, 1000), 0);
}

#[test]
fn throttle_spaces_sends() {
    let mut t = SendThrottle::new(1000, 50_000);
    assert_eq!(t.wait_time(50_000), 0);
    t.mark_sent(60_000);
    assert_eq!(t.wait_time(60_000), 1000);
    assert_eq!(t.wait_time(60_400), 600);
    assert_eq!(t.wait_time(61_000), 0);
    let zero = SendThrottle::new(0, 10);
    assert_eq!(zero.wait_time(10), 0);
}

#[test]
fn throttle_early_clock_waits_full_delay() {
    let t = SendThrottle::new(1000, 300);
    assert_eq!(t.wait_time(300), 1000);
}

#[test]
fn timeout_window_reloads_when_most_requests_time_out() {
    let mut w = TimeoutWindow::new(120_000);
    assert_eq!(w.should_reload(0), None);
    w.record_attempt(1_000);
    w.record_attempt(2_000);
    w.record_timeout(2_500);
    assert_eq!(w.should_reload(3_000), None);
    w.record_attempt(4_000);
    w.record_timeout(4_500);
    w.record_timeout(5_000);
    assert_eq!(w.should_reload(6_000), Some((3, 3)));
    // Entries older than the window leave from the front.
    assert_eq!(w.should_reload(200_000), None);
    assert_eq!(w.attempts_len(), 0);
    assert_eq!(w.timeouts_len(), 0);
}

#[test]
fn skip_batch_joins_consecutive_ids() {
    let mut b = SkipLogBatch::new(0);
    b.push(5, 1);
    b.push(6, 2);
    b.push(6, 3);
    b.push(9, 4);
    assert_eq!(b.ids_text(), "5-6,9");
    b.clear(5);
    assert_eq!(b.ids_text(), "");
}

#[test]
fn skip_aggregator_reports_full_batches() {
    let mut a = SkipLogAggregator::new(10, 3, 1000);
    assert!(a.record("src", 1, 0).is_empty());
    assert!(a.record("src", 2, 10).is_empty());
    let r = a.record("src", 3, 20);
    assert_eq!(r.len(), 1);
    assert_eq!(r[0].source, "src");
    assert_eq!(r[0].count, 3);
    assert_eq!(r[0].ids, "1-3");
    assert!(a.flush_all(30).is_empty());
}

#[test]
fn skip_aggregator_reports_quiet_batches() {
    let mut a = SkipLogAggregator::new(10, 100, 1000);
    a.record("a", 10, 0);
    a.record("b", 20, 0);
    assert!(a.record("b", 22, 500).is_empty());
    let r = a.flush_expired(1200);
    assert_eq!(r.len(), 1);
    assert_eq!(r[0].source, "a");
    assert_eq!(r[0].ids, "10");
    let r = a.flush_all(1300);
    assert_eq!(r.len(), 1);
    assert_eq!(r[0].ids, "20,22");
}

#[test]
fn skip_aggregator_reports_a_stale_batch_before_adding() {
    let mut a = SkipLogAggregator::new(10, 100, 1000);
    a.record("a", 1, 0);
    let r = a.record("a", 2, 5000);
    assert_eq!(r.len(), 1);
    assert_eq!(r[0].ids, "1");
}

#[test]
fn service_skip_log_reports_on_chat_change_and_when_full() {
    let mut l = ServiceSkipLog::new(0);
    assert_eq!(l.record(1, 10, 0), None);
    assert_eq!(l.record(1, 12, 1), None);
    let e = l.record(2, 5, 2).unwrap();
    assert_eq!((e.chat_id, e.min_id, e.max_id, e.count), (1, 10, 12, 2));
    assert_eq!(e.ids_text(), "10-12");
    let e = l.record(2, 6, 3000).unwrap();
    assert_eq!((e.chat_id, e.min_id, e.max_id, e.count), (2, 5, 6, 2));
    let mut l = ServiceSkipLog::new(0);
    let mut reported = None;
    for i in 0..50 {
        if let Some(e) = l.record(7, i, 0) {
            reported = Some(e);
        }
    }
    let e = reported.unwrap();
    assert_eq!(e.count, 50);
    assert_eq!(e.ids_text(), "0-49");
}

#[test]
fn flood_wait_retries_within_limits() {
    let policy = FloodWaitPolicy { max_retries: 2, max_total_wait_secs: 10, request_timeout_secs: 30 };
    let mut st = FloodWaitState::new();
    assert_eq!(next_flood_step(policy, &mut st, CallOutcome::FloodWait(Some(4))), FloodStep::Retry(4));
    assert_eq!(next_flood_step(policy, &mut st, CallOutcome::FloodWait(Some(7))), FloodStep::GiveUp(FloodFailure::WaitBudgetExceeded));
    assert_eq!(next_flood_step(policy, &mut st, CallOutcome::FloodWait(Some(6))), FloodStep::Retry(6));
    assert_eq!(next_flood_step(policy, &mut st, CallOutcome::FloodWait(Some(0))), FloodStep::GiveUp(FloodFailure::TooManyRetries));
    assert_eq!(st.retry_count, 2);
    assert_eq!(st.total_wait_secs, 10);
    let mut st = FloodWaitState::new();
    assert_eq!(next_flood_step(policy, &mut st, CallOutcome::FloodWait(None)), FloodStep::GiveUp(FloodFailure::MissingWait));
    assert_eq!(next_flood_step(policy, &mut st, CallOutcome::Success), FloodStep::Done);
    assert_eq!(next_flood_step(policy, &mut st, CallOutcome::OtherError), FloodStep::GiveUp(FloodFailure::CallFailed));
    assert_eq!(next_flood_step(policy, &mut st, CallOutcome::TimedOut), FloodStep::GiveUp(FloodFailure::TimedOut));
}

#[test]
fn history_pages_are_clamped() {
    assert_eq!(clamp_history_page_limit(0), 1);
    assert_eq!(clamp_history_page_limit(50), 50);
    assert_eq!(clamp_history_page_limit(500), 100);
}

fn task(messages: Vec<MessageView>, is_album: bool) -> ForwardTask {
    ForwardTask { source_key: "s".to_string(), messages, is_album, dedup_infos: Vec::new() }
}

#[test]
fn send_plans_follow_the_task() {
    let p = MessageSender::plan(&task(vec![rt_msg(1, "hi", None, false)], false));
    assert!(matches!(p, SendPlan::Text { ref text, .. } if text == "hi"));
    let p = MessageSender::plan(&task(vec![rt_msg(1, "", None, false)], false));
    assert!(matches!(p, SendPlan::Nothing));
    let p = MessageSender::plan(&task(vec![rt_msg(1, "cap", None, true)], false));
    assert!(matches!(p, SendPlan::Media { ref caption, .. } if caption == "cap"));
    // Album members are left out of a task that is not an album.
    let p = MessageSender::plan(&task(vec![rt_msg(1, "x", Some(3), true)], false));
    assert!(matches!(p, SendPlan::Nothing));
    let p = MessageSender::plan(&task(vec![rt_msg(1, "c", Some(3), true), rt_msg(2, "", Some(3), true)], true));
    assert!(matches!(p, SendPlan::Album { ref medias, ref caption, .. } if medias.len() == 2 && caption == "c"));
    let p = MessageSender::plan(&task(vec![rt_msg(1, "only text", Some(3), false)], true));
    assert!(matches!(p, SendPlan::Text { ref text, .. } if text == "only text"));
}

#[test]
fn catch_up_groups_albums_after_sorting() {
    let ms = vec![
        rt_msg(5, "e", None, false),
        rt_msg(2, "b", Some(9), true),
        rt_msg(1, "a", Some(9), true),
        rt_msg(3, "c", Some(8), true),
        rt_msg(4, "d", None, false),
    ];
    let tasks = catch_up_tasks("src", ms);
    let shape: Vec<(Vec<i64>, bool)> =
        tasks.iter().map(|t| (t.messages.iter().map(|m| m.id).collect(), t.is_album)).collect();
    assert_eq!(
        shape,
        vec![(vec![1, 2], true), (vec![3], true), (vec![4], false), (vec![5], false)]
    );
    assert!(tasks.iter().all(|t| t.source_key == "src" && t.dedup_infos.is_empty()));
}

#[test]
fn album_completion_plans_a_range_around_the_album() {
    let ms = vec![rt_msg(12, "", Some(4), true), rt_msg(10, "", Some(4), true)];
    assert_eq!(album_backfill_plan(&ms, 5), Some((4, 9, 13)));
    let not_album = vec![rt_msg(12, "", None, true)];
    assert_eq!(album_backfill_plan(&not_album, 5), None);
    assert_eq!(album_backfill_plan(&Vec::new(), 5), None);
}

#[test]
fn fetched_album_members_are_absorbed() {
    let mut ms = vec![rt_msg(10, "", Some(4), true)];
    let fetched = vec![rt_msg(11, "", Some(4), true), rt_msg(12, "", Some(5), true), rt_msg(10, "longer", Some(4), true)];
    absorb_backfill(&mut ms, fetched, 4);
    let ids: Vec<i64> = ms.iter().map(|m| m.id).collect();
    assert_eq!(ids, vec![10, 11]);
    assert_eq!(ms[0].text, "longer");
}

#[test]
fn registry_keeps_each_chat_once() {
    let mut r = SourceRegistry::new();
    assert_eq!(r.register("alpha", -1001), Registration::New);
    assert_eq!(r.register("alpha_alias", -1001), Registration::Duplicate);
    assert_eq!(r.register("zero", 0), Registration::Skipped);
    assert_eq!(r.register("beta", 55), Registration::New);
    assert_eq!(r.stable_sources(), vec!["-1001".to_string(), "55".to_string()]);
    assert_eq!(r.stable_key_of(55), Some("55".to_string()));
    assert_eq!(r.stable_key_of(56), None);
    assert_eq!(r.alias_of("-1001"), Some("alpha".to_string()));
    let mut keys = r.source_keys();
    keys.sort();
    assert_eq!(
        keys,
        vec![
            ("alpha".to_string(), "-1001".to_string()),
            ("alpha_alias".to_string(), "-1001".to_string()),
            ("beta".to_string(), "55".to_string()),
        ]
    );
}

#[test]
fn polling_starts_a_page_back() {
    assert_eq!(past_start_id(1000, 100), 901);
    assert_eq!(past_start_id(1000, 0), 1000);
    assert_eq!(past_start_id(i64::MIN + 5, 100), i64::MIN);
    assert_eq!(effective_min_id(5, Some(900)), 900);
    assert_eq!(effective_min_id(950, Some(900)), 950);
    assert_eq!(effective_min_id(5, None), 5);
}

#[test]
fn poll_batches_skip_messages_in_flight_and_run_oldest_first() {
    let ms = vec![rt_msg(9, "", None, false), rt_msg(8, "", None, false), rt_msg(7, "", None, false)];
    let out = past_batch(ms, &vec![8]);
    let ids: Vec<i64> = out.iter().map(|m| m.id).collect();
    assert_eq!(ids, vec![7, 9]);
}

#[test]
fn live_loop_decisions() {
    assert_eq!(
        live_step(false, LiveEvent::Update { id: 3, chat_id: 1, is_edit: false, known: true }),
        LoopStep::Continue { handle: true }
    );
    assert_eq!(
        live_step(false, LiveEvent::Update { id: 3, chat_id: 1, is_edit: false, known: false }),
        LoopStep::Continue { handle: false }
    );
    assert_eq!(
        live_step(false, LiveEvent::Update { id: 0, chat_id: 0, is_edit: true, known: false }),
        LoopStep::Stop { outcome: RunOutcome::Reload, drain: false, force_exit: false }
    );
    assert_eq!(
        live_step(true, LiveEvent::UpdatesClosed),
        LoopStep::Stop { outcome: RunOutcome::Exit, drain: false, force_exit: false }
    );
    assert_eq!(
        live_step(false, LiveEvent::IdleTimeout),
        LoopStep::Stop { outcome: RunOutcome::Reload, drain: false, force_exit: false }
    );
    assert_eq!(
        live_step(false, LiveEvent::ConfigChanged),
        LoopStep::Stop { outcome: RunOutcome::Reload, drain: true, force_exit: false }
    );
    assert_eq!(
        live_step(false, LiveEvent::Interrupt),
        LoopStep::Stop { outcome: RunOutcome::Exit, drain: true, force_exit: true }
    );
}

#[test]
fn past_loop_decisions() {
    assert_eq!(past_step(PastEvent::PauseOver), LoopStep::Continue { handle: false });
    assert_eq!(
        past_step(PastEvent::SendFailed),
        LoopStep::Stop { outcome: RunOutcome::Reload, drain: true, force_exit: false }
    );
    assert_eq!(
        past_step(PastEvent::Interrupt),
        LoopStep::Stop { outcome: RunOutcome::Exit, drain: true, force_exit: true }
    );
    for e in [PastEvent::RunnerStopped, PastEvent::DispatcherBusy] {
        assert_eq!(past_step(e), LoopStep::Stop { outcome: RunOutcome::Reload, drain: false, force_exit: false });
    }
    assert!(requeue_inflight(RunOutcome::Reload, false, "past"));
    assert!(!requeue_inflight(RunOutcome::Reload, true, "past"));
    assert!(!requeue_inflight(RunOutcome::Exit, false, "past"));
    assert!(!requeue_inflight(RunOutcome::Reload, false, "live"));
}

#[test]
fn inflight_tracker_begins_each_message_once() {
    let mut t = InflightTracker::new();
    assert!(t.is_empty());
    assert!(t.try_begin("s", 5));
    assert!(!t.try_begin("s", 5));
    assert!(t.try_begin("s", 6));
    let mut ids = t.ids_of("s");
    ids.sort();
    assert_eq!(ids, vec![5, 6]);
    t.finish("s", &vec![5]);
    assert_eq!(t.ids_of("s"), vec![6]);
    t.finish("s", &vec![6]);
    assert!(t.is_empty());
    assert!(t.try_begin("s", 5));
    assert_eq!(t.all_entries().len(), 1);
}

#[test]
fn task_ids_are_sorted_and_unique() {
    let ms = vec![rt_msg(5, "", None, false), rt_msg(2, "", None, false), rt_msg(5, "", None, false)];
    assert_eq!(task_message_ids(&ms), vec![2, 5]);
}

#[test]
fn gap_notices_are_read_and_summed() {
    let item = parse_gap_message("gap on update for Channel(123): local 5, remote 9").unwrap();
    assert_eq!(item, GapLogItem { channel_id: 123, local: 5, remote: 9 });
    assert_eq!(parse_gap_message("gap on update for Channel(x): local 5, remote 9"), None);
    assert_eq!(parse_gap_message("something else"), None);
    assert_eq!(parse_gap_message("gap on update for Channel(1): local  7 remote x"), None);
    let mut agg = GapLogAggregator::new();
    agg.record(item);
    agg.record(GapLogItem { channel_id: 123, local: 3, remote: 8 });
    agg.record(GapLogItem { channel_id: 4, local: 1, remote: 2 });
    let mut all = agg.drain();
    all.sort_by_key(|e| e.0);
    assert_eq!(all.len(), 2);
    assert_eq!(all[1].0, 123);
    assert_eq!((all[1].1.count, all[1].1.local_min, all[1].1.remote_max), (2, 3, 9));
    assert!(agg.drain().is_empty());
}

#[test]
fn log_rotation_keeps_last_lines() {
    assert_eq!(rotate_log_content("a\nb\nc\nd\n", 2), Some("c\nd".to_string()));
    assert_eq!(rotate_log_content("a\nb", 2), None);
    assert_eq!(rotate_log_content("a\r\nb\r\nc", 1), Some("c".to_string()));
}

#[test]
fn sqlite_header_is_recognized() {
    assert!(is_sqlite_header(b"SQLite format 3\0"));
    assert!(!is_sqlite_header(b"SQLite format 2\0"));
    assert!(!is_sqlite_header(b"short"));
    let c = SessionCleaner::new("data/user_session");
    assert_eq!(c.session_path(), "data/user_session");
}

#[test]
fn thumbnails_for_photos_videos_and_image_documents() {
    assert!(should_hash(&rt_media(MediaType::Photo)));
    assert!(should_hash(&rt_media(MediaType::Video)));
    let mut doc = rt_media(MediaType::Document);
    assert!(!should_hash(&doc));
    doc.mime_type = Some("image/png".to_string());
    assert!(should_hash(&doc));
    doc.mime_type = Some("application/pdf".to_string());
    assert!(!should_hash(&doc));
}

#[test]
fn thumbnail_files_are_named_and_aged() {
    assert_eq!(build_thumb_name(Some(42), 1700000000000, 3), "thumb_42_1700000000000_3");
    assert_eq!(build_thumb_name(None, 5, 0), "thumb_5_0");
    assert!(is_orphan_thumb("thumb_1_2_3", 600_000, 600_000));
    assert!(!is_orphan_thumb("thumb_1_2_3", 599_999, 600_000));
    assert!(!is_orphan_thumb("other", 900_000, 600_000));
}

#[test]
fn difference_hash_compares_neighbours() {
    let mut px = vec![0u8; 72];
    // Row 0: a falling step between x = 0 and x = 1.
    px[0] = 200;
    // Row 7: pixel 8 brighter than pixel 7 sets nothing; pixel 7 brighter than 8 sets bit 63.
    px[7 * 9 + 7] = 10;
    let h = dhash_from_pixels(&px);
    assert_eq!(h, (1u64 << 0) | (1u64 << 63));
    assert_eq!(dhash_from_pixels(&[5u8; 72]), 0);
}

#[test]
fn album_messages_are_ordered_stably_by_id() {
    let mut msgs = vec![
        rt_msg(12, "c", Some(5), true),
        rt_msg(10, "a", Some(5), true),
        rt_msg(12, "d", Some(5), true),
        rt_msg(11, "b", Some(5), true),
    ];
    order_by_id(&mut msgs);
    let order: Vec<(i64, String)> = msgs.iter().map(|m| (m.id, m.text.clone())).collect();
    assert_eq!(
        order,
        vec![
            (10, "a".to_string()),
            (11, "b".to_string()),
            (12, "c".to_string()),
            (12, "d".to_string())
        ]
    );
}
