//! Settings: how raw setting texts are read, where relative paths point, and which
//! combinations of values are refused.
use crate::parse::{parse_i64, parse_u64, parsed_i64, parsed_u64};
use crate::table::{str_eq, str_views};
use crate::text::{lowercase, str_to_lowercase, trim_bounds, trim_ws};
use crate::utf16::{str_chars, string_from_chars, string_from_range};
use vstd::prelude::*;

verus! {

/// A setting read as a `usize`, or `default` when it does not parse as one.
pub open spec fn usize_or(raw: Seq<char>, default: usize) -> usize {
    match parsed_u64(raw) {
        Some(v) => if v <= usize::MAX {
            v as usize
        } else {
            default
        },
        None => default,
    }
}

/// Reads a setting as a `usize`, falling back to `default`.
pub fn parse_usize_or(raw: &str, default: usize) -> (r: usize)
    ensures
        r == usize_or(raw@, default),
{
    match parse_u64(raw) {
        Some(v) => if v <= usize::MAX as u64 {
            v as usize
        } else {
            default
        },
        None => default,
    }
}

/// Reads a setting as a `u64`, falling back to `default`.
pub fn parse_u64_or(raw: &str, default: u64) -> (r: u64)
    ensures
        r == match parsed_u64(raw@) {
            Some(v) => v,
            None => default,
        },
{
    match parse_u64(raw) {
        Some(v) => v,
        None => default,
    }
}

/// `raw` as `i32::from_str` reads it.
pub fn parse_i32(raw: &str) -> (r: Option<i32>)
    ensures
        r == match parsed_i64(raw@) {
            Some(v) => if i32::MIN <= v <= i32::MAX {
                Some(v as i32)
            } else {
                None
            },
            None => None,
        },
{
    match parse_i64(raw) {
        Some(v) => if v >= i32::MIN as i64 && v <= i32::MAX as i64 {
            Some(v as i32)
        } else {
            None
        },
        None => None,
    }
}

/// Whether a switch setting is on: its lowercase form is `true`, `1`, `yes` or `on`.
pub open spec fn flag_on(raw: Seq<char>) -> bool {
    let l = lowercase(raw);
    l == "true"@ || l == "1"@ || l == "yes"@ || l == "on"@
}

/// Reads a switch setting, as `flag_on` states.
pub fn parse_flag(raw: &str) -> (r: bool)
    ensures
        r == flag_on(raw@),
{
    let l = str_to_lowercase(raw);
    let s = l.as_str();
    str_eq(s, "true") || str_eq(s, "1") || str_eq(s, "yes") || str_eq(s, "on")
}

/// Whether `c` separates the entries of an extension list.
pub open spec fn ext_separator(c: char) -> bool {
    c == ',' || c == ';' || c == '|' || c == ' '
}

/// The fields of `s` between separator chars (one empty field for an empty text).
pub open spec fn fields_of(s: Seq<char>) -> Seq<Seq<char>>
    decreases s.len(),
{
    if s.len() == 0 {
        seq![Seq::empty()]
    } else {
        let prev = fields_of(s.drop_last());
        if ext_separator(s.last()) {
            prev.push(Seq::empty())
        } else {
            prev.update(prev.len() - 1, prev.last().push(s.last()))
        }
    }
}

/// Each field trimmed and lowercased; empty results dropped.
pub open spec fn lowered_entries(fields: Seq<Seq<char>>) -> Seq<Seq<char>>
    decreases fields.len(),
{
    if fields.len() == 0 {
        fields
    } else {
        let prev = lowered_entries(fields.drop_last());
        let e = lowercase(trim_ws(fields.last()));
        if e.len() > 0 {
            prev.push(e)
        } else {
            prev
        }
    }
}

fn push_entry(cs: &Vec<char>, a: usize, b: usize, out: &mut Vec<String>)
    requires
        a <= b <= cs@.len(),
    ensures
        ({
            let e = lowercase(trim_ws(cs@.subrange(a as int, b as int)));
            if e.len() > 0 {
                str_views(final(out)@) == str_views(old(out)@).push(e)
            } else {
                final(out)@ == old(out)@
            }
        }),
{
    let piece = string_from_range(cs.as_slice(), a, b);
    let pc = str_chars(piece.as_str());
    let (s, e) = trim_bounds(pc.as_slice());
    let t = string_from_range(pc.as_slice(), s, e);
    let l = str_to_lowercase(t.as_str());
    let lc = str_chars(l.as_str());
    if lc.len() > 0 {
        let ghost before = out@;
        out.push(l);
        assert(str_views(out@) =~= str_views(before).push(
            lowercase(trim_ws(cs@.subrange(a as int, b as int))),
        ));
    }
}

/// The entries of a list of file extensions separated by `,`, `;`, `|` or spaces: each
/// trimmed and lowercased, empty ones dropped.
pub fn parse_ext_allowlist(raw: &str) -> (r: Vec<String>)
    ensures
        str_views(r@) == lowered_entries(fields_of(raw@)),
{
    let cs = str_chars(raw);
    let mut out: Vec<String> = Vec::new();
    let mut start: usize = 0;
    let mut i: usize = 0;
    let ghost mut done: Seq<Seq<char>> = Seq::empty();
    assert(cs@.take(0) =~= Seq::<char>::empty());
    assert(fields_of(cs@.take(0)) =~= seq![Seq::<char>::empty()]);
    while i < cs.len()
        invariant
            start <= i <= cs@.len(),
            cs@ == raw@,
            fields_of(cs@.take(i as int)) == done.push(cs@.subrange(start as int, i as int)),
            str_views(out@) == lowered_entries(done),
        decreases cs@.len() - i,
    {
        assert(cs@.take(i + 1).drop_last() =~= cs@.take(i as int));
        let c = cs[i];
        if c == ',' || c == ';' || c == '|' || c == ' ' {
            push_entry(&cs, start, i, &mut out);
            proof {
                let piece = cs@.subrange(start as int, i as int);
                assert(done.push(piece).drop_last() =~= done);
                done = done.push(piece);
                assert(cs@.subrange(i + 1, i + 1) =~= Seq::<char>::empty());
            }
            start = i + 1;
        } else {
            proof {
                assert(cs@.subrange(start as int, i + 1) =~= cs@.subrange(start as int, i as int).push(
                    cs@[i as int],
                ));
                assert(done.push(cs@.subrange(start as int, i as int)).update(
                    done.len() as int,
                    cs@.subrange(start as int, i + 1),
                ) =~= done.push(cs@.subrange(start as int, i + 1)));
            }
        }
        i = i + 1;
    }
    push_entry(&cs, start, i, &mut out);
    proof {
        let piece = cs@.subrange(start as int, i as int);
        assert(cs@.take(i as int) =~= cs@);
        assert(done.push(piece).drop_last() =~= done);
    }
    out
}

/// The media size limit in bytes for a limit of `mb` mebibytes.
pub fn media_size_limit_bytes(mb: usize) -> (r: usize)
    requires
        mb * 1048576 <= usize::MAX,
    ensures
        r == mb * 1048576,
{
    mb * 1048576
}

/// `p` joined onto `base` as `Path::join` does on Unix: an absolute `p` replaces
/// `base`; otherwise a `/` goes between them unless `base` is empty or ends in one.
pub open spec fn joined(base: Seq<char>, p: Seq<char>) -> Seq<char> {
    if p.len() > 0 && p[0] == '/' {
        p
    } else if base.len() == 0 || base.last() == '/' {
        base + p
    } else {
        base + seq!['/'] + p
    }
}

/// Where a configured path points: `default` under `base` when nothing is configured,
/// an absolute path as it is, any other path under `base`.
pub open spec fn resolved(base: Seq<char>, raw: Seq<char>, default: Seq<char>) -> Seq<char> {
    if raw.len() == 0 {
        joined(base, default)
    } else if raw[0] == '/' {
        raw
    } else {
        joined(base, raw)
    }
}

fn join_onto(base: &Vec<char>, p: &Vec<char>) -> (r: String)
    ensures
        r@ == joined(base@, p@),
{
    if p.len() > 0 && p[0] == '/' {
        return string_from_chars(p.as_slice());
    }
    let mut out: Vec<char> = Vec::new();
    let mut i: usize = 0;
    while i < base.len()
        invariant
            i <= base@.len(),
            out@ == base@.take(i as int),
        decreases base@.len() - i,
    {
        out.push(base[i]);
        i = i + 1;
        assert(out@ =~= base@.take(i as int));
    }
    assert(base@.take(base@.len() as int) =~= base@);
    if base.len() > 0 && base[base.len() - 1] != '/' {
        out.push('/');
    }
    let ghost mid = out@;
    let mut k: usize = 0;
    while k < p.len()
        invariant
            k <= p@.len(),
            out@ == mid + p@.take(k as int),
        decreases p@.len() - k,
    {
        out.push(p[k]);
        k = k + 1;
        assert(out@ =~= mid + p@.take(k as int));
    }
    assert(p@.take(p@.len() as int) =~= p@);
    string_from_chars(out.as_slice())
}

/// Resolves a configured path against the project directory `base`, as `resolved`
/// states.
pub fn resolve_path(base: &str, raw: &str, default: &str) -> (r: String)
    ensures
        r@ == resolved(base@, raw@, default@),
{
    let b = str_chars(base);
    let rc = str_chars(raw);
    if rc.len() == 0 {
        let d = str_chars(default);
        return join_onto(&b, &d);
    }
    if rc[0] == '/' {
        return string_from_chars(rc.as_slice());
    }
    join_onto(&b, &rc)
}

/// The most items Telegram takes in one album.
pub const ALBUM_MAX_ITEMS_UPPER: usize = 10;

/// The configuration values that validation reads. Real-valued settings appear as
/// whether they lie in their range.
pub struct ConfigFields {
    pub api_id: i32,
    pub api_hash: String,
    pub target: String,
    pub mode: String,
    pub past_limit: usize,
    pub worker_count: usize,
    pub album_max_items: usize,
    pub state_flush_interval: usize,
    pub shutdown_drain_timeout: u64,
    pub state_gap_timeout: u64,
    pub state_pending_limit: usize,
    pub hotreload_interval: usize,
    pub dedup_simhash_threshold: usize,
    pub jaccard_short_in_unit_range: bool,
    pub jaccard_long_in_unit_range: bool,
    pub dedup_recent_text_limit: usize,
    pub dedup_thumb_phash_threshold: usize,
    pub dedup_thumb_dhash_threshold: usize,
    pub album_thumb_ratio_in_unit_range: bool,
    pub dedup_short_text_threshold: usize,
    pub thumb_dir: String,
    pub append_limit_with_media: usize,
    pub append_limit_text: usize,
    pub album_delay_negative: bool,
    pub forward_delay_negative: bool,
    pub flood_wait_max_retries: usize,
    pub flood_wait_max_total_wait: usize,
    pub request_timeout: u64,
    pub dispatcher_idle_timeout: u64,
}

/// The first rule a configuration breaks.
#[derive(Debug, Clone, Copy, PartialEq, Eq, Structural)]
pub enum ConfigError {
    ApiId,
    ApiHash,
    Target,
    Mode,
    PastLimit,
    WorkerCount,
    AlbumMaxItemsZero,
    AlbumMaxItemsTooLarge,
    StateFlushInterval,
    ShutdownDrainTimeout,
    StateGapTimeout,
    StatePendingLimit,
    HotreloadInterval,
    SimhashThreshold,
    JaccardShortThreshold,
    JaccardLongThreshold,
    RecentTextLimit,
    PhashThreshold,
    DhashThreshold,
    AlbumThumbRatio,
    ShortTextThreshold,
    ThumbDir,
    AppendLimit,
    AlbumDelay,
    ForwardDelay,
    FloodWaitMaxRetries,
    FloodWaitMaxTotalWait,
    RequestTimeout,
    DispatcherIdleTimeout,
}

/// The rules in the order they are checked; the first broken one is the answer.
pub open spec fn first_violation(c: ConfigFields) -> Option<ConfigError> {
    if c.api_id <= 0 {
        Some(ConfigError::ApiId)
    } else if c.api_hash@.len() == 0 {
        Some(ConfigError::ApiHash)
    } else if c.target@.len() == 0 {
        Some(ConfigError::Target)
    } else if !(c.mode@ == "live"@ || c.mode@ == "past"@) {
        Some(ConfigError::Mode)
    } else if c.past_limit == 0 {
        Some(ConfigError::PastLimit)
    } else if c.worker_count == 0 {
        Some(ConfigError::WorkerCount)
    } else if c.album_max_items == 0 {
        Some(ConfigError::AlbumMaxItemsZero)
    } else if c.album_max_items > ALBUM_MAX_ITEMS_UPPER {
        Some(ConfigError::AlbumMaxItemsTooLarge)
    } else if c.state_flush_interval == 0 {
        Some(ConfigError::StateFlushInterval)
    } else if c.shutdown_drain_timeout == 0 {
        Some(ConfigError::ShutdownDrainTimeout)
    } else if c.state_gap_timeout == 0 {
        Some(ConfigError::StateGapTimeout)
    } else if c.state_pending_limit == 0 {
        Some(ConfigError::StatePendingLimit)
    } else if c.hotreload_interval == 0 {
        Some(ConfigError::HotreloadInterval)
    } else if c.dedup_simhash_threshold == 0 {
        Some(ConfigError::SimhashThreshold)
    } else if !c.jaccard_short_in_unit_range {
        Some(ConfigError::JaccardShortThreshold)
    } else if !c.jaccard_long_in_unit_range {
        Some(ConfigError::JaccardLongThreshold)
    } else if c.dedup_recent_text_limit == 0 {
        Some(ConfigError::RecentTextLimit)
    } else if c.dedup_thumb_phash_threshold == 0 {
        Some(ConfigError::PhashThreshold)
    } else if c.dedup_thumb_dhash_threshold == 0 {
        Some(ConfigError::DhashThreshold)
    } else if !c.album_thumb_ratio_in_unit_range {
        Some(ConfigError::AlbumThumbRatio)
    } else if c.dedup_short_text_threshold == 0 {
        Some(ConfigError::ShortTextThreshold)
    } else if c.thumb_dir@.len() == 0 {
        Some(ConfigError::ThumbDir)
    } else if c.append_limit_with_media == 0 || c.append_limit_text == 0 {
        Some(ConfigError::AppendLimit)
    } else if c.album_delay_negative {
        Some(ConfigError::AlbumDelay)
    } else if c.forward_delay_negative {
        Some(ConfigError::ForwardDelay)
    } else if c.flood_wait_max_retries == 0 {
        Some(ConfigError::FloodWaitMaxRetries)
    } else if c.flood_wait_max_total_wait == 0 {
        Some(ConfigError::FloodWaitMaxTotalWait)
    } else if c.request_timeout == 0 {
        Some(ConfigError::RequestTimeout)
    } else if c.dispatcher_idle_timeout == 0 {
        Some(ConfigError::DispatcherIdleTimeout)
    } else {
        None
    }
}

fn is_empty_str(s: &str) -> (b: bool)
    ensures
        b == (s@.len() == 0),
{
    s.unicode_len() == 0
}

/// Accepts a configuration that keeps every rule; otherwise names the first rule it
/// breaks, in the order of `first_violation`.
pub fn validate_config(c: &ConfigFields) -> (r: Result<(), ConfigError>)
    ensures
        match first_violation(*c) {
            None => r is Ok,
            Some(e) => r == Err::<(), ConfigError>(e),
        },
{
    if c.api_id <= 0 {
        return Err(ConfigError::ApiId);
    }
    if is_empty_str(c.api_hash.as_str()) {
        return Err(ConfigError::ApiHash);
    }
    if is_empty_str(c.target.as_str()) {
        return Err(ConfigError::Target);
    }
    if !(str_eq(c.mode.as_str(), "live") || str_eq(c.mode.as_str(), "past")) {
        return Err(ConfigError::Mode);
    }
    if c.past_limit == 0 {
        return Err(ConfigError::PastLimit);
    }
    if c.worker_count == 0 {
        return Err(ConfigError::WorkerCount);
    }
    if c.album_max_items == 0 {
        return Err(ConfigError::AlbumMaxItemsZero);
    }
    if c.album_max_items > ALBUM_MAX_ITEMS_UPPER {
        return Err(ConfigError::AlbumMaxItemsTooLarge);
    }
    if c.state_flush_interval == 0 {
        return Err(ConfigError::StateFlushInterval);
    }
    if c.shutdown_drain_timeout == 0 {
        return Err(ConfigError::ShutdownDrainTimeout);
    }
    if c.state_gap_timeout == 0 {
        return Err(ConfigError::StateGapTimeout);
    }
    if c.state_pending_limit == 0 {
        return Err(ConfigError::StatePendingLimit);
    }
    if c.hotreload_interval == 0 {
        return Err(ConfigError::HotreloadInterval);
    }
    if c.dedup_simhash_threshold == 0 {
        return Err(ConfigError::SimhashThreshold);
    }
    if !c.jaccard_short_in_unit_range {
        return Err(ConfigError::JaccardShortThreshold);
    }
    if !c.jaccard_long_in_unit_range {
        return Err(ConfigError::JaccardLongThreshold);
    }
    if c.dedup_recent_text_limit == 0 {
        return Err(ConfigError::RecentTextLimit);
    }
    if c.dedup_thumb_phash_threshold == 0 {
        return Err(ConfigError::PhashThreshold);
    }
    if c.dedup_thumb_dhash_threshold == 0 {
        return Err(ConfigError::DhashThreshold);
    }
    if !c.album_thumb_ratio_in_unit_range {
        return Err(ConfigError::AlbumThumbRatio);
    }
    if c.dedup_short_text_threshold == 0 {
        return Err(ConfigError::ShortTextThreshold);
    }
    if is_empty_str(c.thumb_dir.as_str()) {
        return Err(ConfigError::ThumbDir);
    }
    if c.append_limit_with_media == 0 || c.append_limit_text == 0 {
        return Err(ConfigError::AppendLimit);
    }
    if c.album_delay_negative {
        return Err(ConfigError::AlbumDelay);
    }
    if c.forward_delay_negative {
        return Err(ConfigError::ForwardDelay);
    }
    if c.flood_wait_max_retries == 0 {
        return Err(ConfigError::FloodWaitMaxRetries);
    }
    if c.flood_wait_max_total_wait == 0 {
        return Err(ConfigError::FloodWaitMaxTotalWait);
    }
    if c.request_timeout == 0 {
        return Err(ConfigError::RequestTimeout);
    }
    if c.dispatcher_idle_timeout == 0 {
        return Err(ConfigError::DispatcherIdleTimeout);
    }
    Ok(())
}

impl ConfigError {
    /// The message shown for the error.
    pub fn message(&self) -> (r: &'static str)
        ensures
            r@ == config_error_message(*self),
    {
        match self {
            ConfigError::ApiId => "TG_API_ID 必须为正整数",
            ConfigError::ApiHash => "TG_API_HASH 不能为空",
            ConfigError::Target => "TG_TARGET 不能为空",
            ConfigError::Mode => "TG_MODE 必须为 live 或 past",
            ConfigError::PastLimit => "TG_PAST_LIMIT 必须大于 0",
            ConfigError::WorkerCount => "TG_WORKER_COUNT 必须大于 0",
            ConfigError::AlbumMaxItemsZero => "TG_ALBUM_MAX_ITEMS 必须大于 0",
            ConfigError::AlbumMaxItemsTooLarge => "TG_ALBUM_MAX_ITEMS 不能超过 10（Telegram 相册上限）",
            ConfigError::StateFlushInterval => "TG_STATE_FLUSH_INTERVAL 必须大于 0",
            ConfigError::ShutdownDrainTimeout => "TG_SHUTDOWN_DRAIN_TIMEOUT 必须大于 0",
            ConfigError::StateGapTimeout => "TG_STATE_GAP_TIMEOUT 必须大于 0",
            ConfigError::StatePendingLimit => "TG_STATE_PENDING_LIMIT 必须大于 0",
            ConfigError::HotreloadInterval => "TG_HOTRELOAD_INTERVAL 必须大于 0",
            ConfigError::SimhashThreshold => "TG_DEDUP_SIMHASH_THRESHOLD 必须大于 0",
            ConfigError::JaccardShortThreshold => "TG_DEDUP_JACCARD_SHORT_THRESHOLD 必须在 0-1 之间",
            ConfigError::JaccardLongThreshold => "TG_DEDUP_JACCARD_LONG_THRESHOLD 必须在 0-1 之间",
            ConfigError::RecentTextLimit => "TG_DEDUP_RECENT_TEXT_LIMIT 必须大于 0",
            ConfigError::PhashThreshold => "TG_DEDUP_PHASH_THRESHOLD 必须大于 0",
            ConfigError::DhashThreshold => "TG_DEDUP_DHASH_THRESHOLD 必须大于 0",
            ConfigError::AlbumThumbRatio => "TG_DEDUP_ALBUM_THUMB_RATIO 必须在 0-1 之间",
            ConfigError::ShortTextThreshold => "TG_DEDUP_SHORT_TEXT_THRESHOLD 必须大于 0",
            ConfigError::ThumbDir => "TG_THUMB_DIR 不能为空",
            ConfigError::AppendLimit => "TG_APPEND_LIMIT_* 必须大于 0",
            ConfigError::AlbumDelay => "TG_ALBUM_DELAY 不能为负数",
            ConfigError::ForwardDelay => "TG_FORWARD_DELAY 不能为负数",
            ConfigError::FloodWaitMaxRetries => "TG_FLOOD_WAIT_MAX_RETRIES 必须大于 0",
            ConfigError::FloodWaitMaxTotalWait => "TG_FLOOD_WAIT_MAX_TOTAL_WAIT 必须大于 0",
            ConfigError::RequestTimeout => "TG_REQUEST_TIMEOUT 必须大于 0",
            ConfigError::DispatcherIdleTimeout => "TG_DISPATCHER_IDLE_TIMEOUT 必须大于 0",
        }
    }
}

/// The message of each error.
pub open spec fn config_error_message(e: ConfigError) -> Seq<char> {
    match e {
        ConfigError::ApiId => "TG_API_ID 必须为正整数"@,
        ConfigError::ApiHash => "TG_API_HASH 不能为空"@,
        ConfigError::Target => "TG_TARGET 不能为空"@,
        ConfigError::Mode => "TG_MODE 必须为 live 或 past"@,
        ConfigError::PastLimit => "TG_PAST_LIMIT 必须大于 0"@,
        ConfigError::WorkerCount => "TG_WORKER_COUNT 必须大于 0"@,
        ConfigError::AlbumMaxItemsZero => "TG_ALBUM_MAX_ITEMS 必须大于 0"@,
        ConfigError::AlbumMaxItemsTooLarge => "TG_ALBUM_MAX_ITEMS 不能超过 10（Telegram 相册上限）"@,
        ConfigError::StateFlushInterval => "TG_STATE_FLUSH_INTERVAL 必须大于 0"@,
        ConfigError::ShutdownDrainTimeout => "TG_SHUTDOWN_DRAIN_TIMEOUT 必须大于 0"@,
        ConfigError::StateGapTimeout => "TG_STATE_GAP_TIMEOUT 必须大于 0"@,
        ConfigError::StatePendingLimit => "TG_STATE_PENDING_LIMIT 必须大于 0"@,
        ConfigError::HotreloadInterval => "TG_HOTRELOAD_INTERVAL 必须大于 0"@,
        ConfigError::SimhashThreshold => "TG_DEDUP_SIMHASH_THRESHOLD 必须大于 0"@,
        ConfigError::JaccardShortThreshold => "TG_DEDUP_JACCARD_SHORT_THRESHOLD 必须在 0-1 之间"@,
        ConfigError::JaccardLongThreshold => "TG_DEDUP_JACCARD_LONG_THRESHOLD 必须在 0-1 之间"@,
        ConfigError::RecentTextLimit => "TG_DEDUP_RECENT_TEXT_LIMIT 必须大于 0"@,
        ConfigError::PhashThreshold => "TG_DEDUP_PHASH_THRESHOLD 必须大于 0"@,
        ConfigError::DhashThreshold => "TG_DEDUP_DHASH_THRESHOLD 必须大于 0"@,
        ConfigError::AlbumThumbRatio => "TG_DEDUP_ALBUM_THUMB_RATIO 必须在 0-1 之间"@,
        ConfigError::ShortTextThreshold => "TG_DEDUP_SHORT_TEXT_THRESHOLD 必须大于 0"@,
        ConfigError::ThumbDir => "TG_THUMB_DIR 不能为空"@,
        ConfigError::AppendLimit => "TG_APPEND_LIMIT_* 必须大于 0"@,
        ConfigError::AlbumDelay => "TG_ALBUM_DELAY 不能为负数"@,
        ConfigError::ForwardDelay => "TG_FORWARD_DELAY 不能为负数"@,
        ConfigError::FloodWaitMaxRetries => "TG_FLOOD_WAIT_MAX_RETRIES 必须大于 0"@,
        ConfigError::FloodWaitMaxTotalWait => "TG_FLOOD_WAIT_MAX_TOTAL_WAIT 必须大于 0"@,
        ConfigError::RequestTimeout => "TG_REQUEST_TIMEOUT 必须大于 0"@,
        ConfigError::DispatcherIdleTimeout => "TG_DISPATCHER_IDLE_TIMEOUT 必须大于 0"@,
    }
}

/// A `String` with the chars of `s`.
fn owned(s: &str) -> (r: String)
    ensures
        r@ == s@,
{
    string_from_chars(str_chars(s).as_slice())
}

/// The default mode: `live`.
pub fn default_mode() -> (r: String)
    ensures
        r@ == "live"@,
{
    owned("live")
}

/// The default number of messages fetched per poll: 100.
pub fn default_past_limit() -> (r: usize)
    ensures
        r == 100,
{
    100
}

/// The default number of items in an album: 10.
pub fn default_album_max_items() -> (r: usize)
    ensures
        r == 10,
{
    10
}

/// The default width of the id range fetched to complete an album: 20.
pub fn default_album_backfill_max_range() -> (r: usize)
    ensures
        r == 20,
{
    20
}

/// The default number of retries after a flood wait: 5.
pub fn default_flood_wait_max_retries() -> (r: usize)
    ensures
        r == 5,
{
    5
}

/// The default limit on the total flood wait, in seconds: 3600.
pub fn default_flood_wait_max_total_wait() -> (r: usize)
    ensures
        r == 3600,
{
    3600
}

/// The default request timeout, in seconds: 30.
pub fn default_request_timeout() -> (r: u64)
    ensures
        r == 30,
{
    30
}

/// The default time the sender may stay busy, in seconds: 300.
pub fn default_dispatcher_idle_timeout() -> (r: u64)
    ensures
        r == 300,
{
    300
}

/// The default time without updates before reconnecting, in seconds: 0, never.
pub fn default_updates_idle_timeout() -> (r: u64)
    ensures
        r == 0,
{
    0
}

/// The default number of sending workers: 3.
pub fn default_worker_count() -> (r: usize)
    ensures
        r == 3,
{
    3
}

/// Keywords ignore case by default.
pub fn default_keyword_case_sensitive() -> (r: bool)
    ensures
        r == false,
{
    false
}

/// The default session name: `user_session`.
pub fn default_session_name() -> (r: String)
    ensures
        r@ == "user_session"@,
{
    owned("user_session")
}

/// The default log level: `INFO`.
pub fn default_log_level() -> (r: String)
    ensures
        r@ == "INFO"@,
{
    owned("INFO")
}

/// The default number of lines the log keeps: 100.
pub fn default_log_max_lines() -> (r: usize)
    ensures
        r == 100,
{
    100
}

/// The default interval between state saves, in seconds: 5.
pub fn default_state_flush_interval() -> (r: usize)
    ensures
        r == 5,
{
    5
}

/// The default time to let sends finish at shutdown, in seconds: 30.
pub fn default_shutdown_drain_timeout() -> (r: u64)
    ensures
        r == 30,
{
    30
}

/// The default time after which a gap in processed ids is given up, in seconds: 300.
pub fn default_state_gap_timeout() -> (r: u64)
    ensures
        r == 300,
{
    300
}

/// The default number of pending ids kept per source: 2000.
pub fn default_state_pending_limit() -> (r: usize)
    ensures
        r == 2000,
{
    2000
}

/// The default interval between checks for changed files, in seconds: 2.
pub fn default_hotreload_interval() -> (r: usize)
    ensures
        r == 2,
{
    2
}

/// The default media size limit in bytes: 100 MiB.
pub fn default_media_size_limit() -> (r: usize)
    ensures
        r == 100 * 1024 * 1024,
{
    100 * 1024 * 1024
}

/// Files are forwarded by default.
pub fn default_enable_file_forward() -> (r: bool)
    ensures
        r == true,
{
    true
}

/// The default number of text fingerprints kept: 5000.
pub fn default_dedup_limit() -> (r: usize)
    ensures
        r == 5000,
{
    5000
}

/// The default number of media signatures kept: 15000.
pub fn default_media_dedup_limit() -> (r: usize)
    ensures
        r == 15000,
{
    15000
}

/// The default largest SimHash distance of near-duplicate texts: 3.
pub fn default_dedup_simhash_threshold() -> (r: usize)
    ensures
        r == 3,
{
    3
}

/// The default number of recent texts compared by their features: 100.
pub fn default_dedup_recent_text_limit() -> (r: usize)
    ensures
        r == 100,
{
    100
}

/// The default thumbnail directory: `data`.
pub fn default_thumb_dir() -> (r: String)
    ensures
        r@ == "data"@,
{
    owned("data")
}

/// The default largest pHash distance of duplicate thumbnails: 10.
pub fn default_dedup_thumb_phash_threshold() -> (r: usize)
    ensures
        r == 10,
{
    10
}

/// The default largest dHash distance of duplicate thumbnails: 10.
pub fn default_dedup_thumb_dhash_threshold() -> (r: usize)
    ensures
        r == 10,
{
    10
}

/// The default length below which a text counts as short: 50.
pub fn default_dedup_short_text_threshold() -> (r: usize)
    ensures
        r == 50,
{
    50
}

/// The default shortest text held back to join an album: 0.
pub fn default_text_merge_min_len() -> (r: usize)
    ensures
        r == 0,
{
    0
}

/// The default largest id gap between a held-back text and its album: 5.
pub fn default_text_merge_max_id_gap() -> (r: usize)
    ensures
        r == 5,
{
    5
}

/// The default caption limit with media: 1024.
pub fn default_append_limit_with_media() -> (r: usize)
    ensures
        r == 1024,
{
    1024
}

/// The default text limit: 4096.
pub fn default_append_limit_text() -> (r: usize)
    ensures
        r == 4096,
{
    4096
}

/// The default interval between catch-up rounds, in seconds: 300.
pub fn default_catch_up_interval() -> (r: usize)
    ensures
        r == 300,
{
    300
}

} // verus!
