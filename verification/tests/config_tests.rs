use tgforward::config::{
    default_append_limit_text, default_append_limit_with_media, default_mode, default_past_limit,
    default_session_name, default_thumb_dir, media_size_limit_bytes, parse_ext_allowlist, parse_flag,
    parse_i32, parse_u64_or, parse_usize_or, resolve_path, validate_config, ConfigError, ConfigFields,
};
use tgforward::sources::{parse_sources, SourcesError};

fn valid_fields() -> ConfigFields {
    ConfigFields {
        api_id: 12345,
        api_hash: "abcdef".to_string(),
        target: "@target".to_string(),
        mode: "live".to_string(),
        past_limit: 100,
        worker_count: 3,
        album_max_items: 10,
        state_flush_interval: 5,
        shutdown_drain_timeout: 30,
        state_gap_timeout: 300,
        state_pending_limit: 2000,
        hotreload_interval: 2,
        dedup_simhash_threshold: 3,
        jaccard_short_in_unit_range: true,
        jaccard_long_in_unit_range: true,
        dedup_recent_text_limit: 100,
        dedup_thumb_phash_threshold: 10,
        dedup_thumb_dhash_threshold: 10,
        album_thumb_ratio_in_unit_range: true,
        dedup_short_text_threshold: 50,
        thumb_dir: "/data".to_string(),
        append_limit_with_media: 1024,
        append_limit_text: 4096,
        album_delay_negative: false,
        forward_delay_negative: false,
        flood_wait_max_retries: 5,
        flood_wait_max_total_wait: 3600,
        request_timeout: 30,
        dispatcher_idle_timeout: 300,
    }
}

#[test]
fn sources_are_normalized_and_deduplicated() {
    let content = "# comment\nhttps://t.me/alpha\n\n t.me/beta # inline\nalpha\ngamma\n";
    let r = parse_sources(content).unwrap();
    assert_eq!(r, vec!["alpha".to_string(), "beta".to_string(), "gamma".to_string()]);
}

#[test]
fn sources_with_only_comments_are_refused() {
    assert!(matches!(parse_sources("# only\n   \n#x"), Err(SourcesError::NoSources)));
    assert!(matches!(parse_sources(""), Err(SourcesError::NoSources)));
}

#[test]
fn sources_keep_crlf_lines_apart() {
    let r = parse_sources("a\r\nb\r\n").unwrap();
    assert_eq!(r, vec!["a".to_string(), "b".to_string()]);
}

#[test]
fn settings_parse_with_fallbacks() {
    assert_eq!(parse_usize_or("42", 7), 42);
    assert_eq!(parse_usize_or("x", 7), 7);
    assert_eq!(parse_usize_or("-1", 7), 7);
    assert_eq!(parse_u64_or("+5", 1), 5);
    assert_eq!(parse_i32("-12"), Some(-12));
    assert_eq!(parse_i32("2147483648"), None);
    assert_eq!(parse_i32(" 1"), None);
}

#[test]
fn switches_accept_the_usual_words() {
    for on in ["true", "TRUE", "1", "yes", "On"] {
        assert!(parse_flag(on), "{}", on);
    }
    for off in ["false", "0", "no", "", "enabled"] {
        assert!(!parse_flag(off), "{}", off);
    }
}

#[test]
fn extension_list_splits_on_all_separators() {
    let r = parse_ext_allowlist(" JPG, png;Gif|mp4  ,,");
    assert_eq!(r, vec!["jpg", "png", "gif", "mp4"]);
    assert!(parse_ext_allowlist("").is_empty());
}

#[test]
fn media_size_limit_in_mebibytes() {
    assert_eq!(media_size_limit_bytes(100), 104_857_600);
    assert_eq!(media_size_limit_bytes(0), 0);
}

#[test]
fn paths_resolve_against_the_project_directory() {
    assert_eq!(resolve_path("/proj", "", "state.json"), "/proj/state.json");
    assert_eq!(resolve_path("/proj/", "data/x", "d"), "/proj/data/x");
    assert_eq!(resolve_path("/proj", "/abs/file", "d"), "/abs/file");
    assert_eq!(resolve_path("", "rel", "d"), "rel");
}

#[test]
fn a_valid_configuration_is_accepted() {
    assert!(validate_config(&valid_fields()).is_ok());
}

#[test]
fn each_rule_has_its_error() {
    let mut c = valid_fields();
    c.api_id = 0;
    assert!(matches!(validate_config(&c), Err(ConfigError::ApiId)));
    let mut c = valid_fields();
    c.api_hash = String::new();
    assert!(matches!(validate_config(&c), Err(ConfigError::ApiHash)));
    let mut c = valid_fields();
    c.target = String::new();
    assert!(matches!(validate_config(&c), Err(ConfigError::Target)));
    let mut c = valid_fields();
    c.mode = "LIVE".to_string();
    assert!(matches!(validate_config(&c), Err(ConfigError::Mode)));
    let mut c = valid_fields();
    c.album_max_items = 11;
    assert!(matches!(validate_config(&c), Err(ConfigError::AlbumMaxItemsTooLarge)));
    let mut c = valid_fields();
    c.album_max_items = 0;
    assert!(matches!(validate_config(&c), Err(ConfigError::AlbumMaxItemsZero)));
    let mut c = valid_fields();
    c.jaccard_long_in_unit_range = false;
    assert!(matches!(validate_config(&c), Err(ConfigError::JaccardLongThreshold)));
    let mut c = valid_fields();
    c.thumb_dir = String::new();
    assert!(matches!(validate_config(&c), Err(ConfigError::ThumbDir)));
    let mut c = valid_fields();
    c.append_limit_text = 0;
    assert!(matches!(validate_config(&c), Err(ConfigError::AppendLimit)));
    let mut c = valid_fields();
    c.forward_delay_negative = true;
    assert!(matches!(validate_config(&c), Err(ConfigError::ForwardDelay)));
    let mut c = valid_fields();
    c.dispatcher_idle_timeout = 0;
    assert!(matches!(validate_config(&c), Err(ConfigError::DispatcherIdleTimeout)));
}

#[test]
fn the_first_broken_rule_is_reported() {
    let mut c = valid_fields();
    c.worker_count = 0;
    c.request_timeout = 0;
    assert!(matches!(validate_config(&c), Err(ConfigError::WorkerCount)));
    assert_eq!(ConfigError::WorkerCount.message(), "TG_WORKER_COUNT 必须大于 0");
    assert_eq!(
        ConfigError::AlbumMaxItemsTooLarge.message(),
        "TG_ALBUM_MAX_ITEMS 不能超过 10（Telegram 相册上限）"
    );
}

#[test]
fn defaults_match_the_documented_values() {
    assert_eq!(default_mode(), "live");
    assert_eq!(default_past_limit(), 100);
    assert_eq!(default_session_name(), "user_session");
    assert_eq!(default_thumb_dir(), "data");
    assert_eq!(default_append_limit_with_media(), 1024);
    assert_eq!(default_append_limit_text(), 4096);
}
