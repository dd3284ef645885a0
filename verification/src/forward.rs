//! Forwarding tasks and the decisions around them: links to source messages, merging
//! refetched album parts, joining a held-back text to an album, the id range to refetch,
//! captions that must fit, and which send errors are network errors.
use crate::dedup::DedupCommitInfo;
use crate::entity_trim::{entity_ends_fit, trim_long_entities_if_needed, trimmed};
use crate::model::{
    copy_media, entities_fit, opt_media, EntityType, MediaSpec, MediaView, MessageSpec, MessageView,
    TextEntity,
};
use crate::parse::{parse_i64, parsed_i64};
use crate::pipeline::{shifted_all, PipelineResult};
use crate::signature::decimal;
use crate::table::str_eq;
use crate::text::{
    chars_contain, contains_sub, has_prefix, lowercase, str_is_blank, str_to_lowercase,
    trim_chars, trim_start_char, trim_ws,
};
use crate::utf16::{str_chars, string_from_chars, string_from_range, utf16_len, utf16_units};
use vstd::prelude::*;

verus! {

/// Messages of one source to send together (as an album when `is_album`), with the
/// candidates staged for them.
pub struct ForwardTask {
    pub source_key: String,
    pub messages: Vec<MessageView>,
    pub is_album: bool,
    pub dedup_infos: Vec<DedupCommitInfo>,
}

/// `s` without every leading copy of the non-empty `p`.
pub open spec fn strip_all(s: Seq<char>, p: Seq<char>) -> Seq<char>
    decreases s.len(),
{
    if p.len() > 0 && has_prefix(s, p) {
        strip_all(s.skip(p.len() as int), p)
    } else {
        s
    }
}

/// A source key as an identifier: trimmed, without leading `https://t.me/`,
/// `http://t.me/`, `t.me/` (each as often as it repeats, in that order) and `@`s.
pub open spec fn sanitized(raw: Seq<char>) -> Seq<char> {
    trim_start_char(
        strip_all(strip_all(strip_all(trim_ws(raw), "https://t.me/"@), "http://t.me/"@), "t.me/"@),
        '@',
    )
}

/// The link to message `msg_id` of a channel with the internal id.
pub open spec fn channel_link(channel: int, msg_id: i64) -> Seq<char> {
    "https://t.me/c/"@ + decimal(channel) + "/"@ + decimal(msg_id as int)
}

/// The link to a message: none for ids below 1; a private-channel link for chat ids at
/// or below -10^12 (from the chat id, else from a numeric source key); a public link
/// from a non-numeric source key.
pub open spec fn message_link(source_key: Seq<char>, chat_id: i64, msg_id: i64) -> Option<Seq<char>> {
    if msg_id <= 0 {
        None
    } else if chat_id <= -1_000_000_000_000 {
        Some(channel_link(-chat_id - 1_000_000_000_000, msg_id))
    } else {
        let key = sanitized(source_key);
        if key.len() == 0 {
            None
        } else {
            match parsed_i64(key) {
                Some(id) => if id <= -1_000_000_000_000 {
                    Some(channel_link(-id - 1_000_000_000_000, msg_id))
                } else {
                    None
                },
                None => Some("https://t.me/"@ + key + "/"@ + decimal(msg_id as int)),
            }
        }
    }
}

/// Whether `p` occurs in `cs` at `at`.
fn prefix_at(cs: &Vec<char>, at: usize, p: &Vec<char>) -> (r: bool)
    requires
        at <= cs@.len(),
    ensures
        r == has_prefix(cs@.skip(at as int), p@),
{
    if p.len() > cs.len() - at {
        return false;
    }
    let mut k: usize = 0;
    while k < p.len()
        invariant
            at + p@.len() <= cs@.len() <= usize::MAX,
            k <= p@.len(),
            forall|j: int| 0 <= j < k ==> cs@[at + j] == p@[j],
        decreases p@.len() - k,
    {
        if cs[at + k] != p[k] {
            assert(cs@.skip(at as int).take(p@.len() as int)[k as int] != p@[k as int]);
            return false;
        }
        k = k + 1;
    }
    assert(cs@.skip(at as int).take(p@.len() as int) =~= p@);
    true
}

/// Index after the leading copies of `p` in `cs` from `from` on.
fn skip_all(cs: &Vec<char>, from: usize, p: &Vec<char>) -> (r: usize)
    requires
        from <= cs@.len(),
    ensures
        from <= r <= cs@.len(),
        cs@.skip(r as int) == strip_all(cs@.skip(from as int), p@),
{
    let mut i = from;
    if p.len() == 0 {
        return i;
    }
    let n = cs.len();
    loop
        invariant
            n == cs@.len(),
            from <= i <= cs@.len(),
            p@.len() > 0,
            strip_all(cs@.skip(from as int), p@) == strip_all(cs@.skip(i as int), p@),
        decreases cs@.len() - i,
    {
        if !prefix_at(cs, i, p) {
            return i;
        }
        let pl = p.len();
        assert(i + pl <= cs@.len()) by {
            assert(has_prefix(cs@.skip(i as int), p@));
        }
        assert(cs@.skip(i as int).skip(pl as int) =~= cs@.skip(i + pl));
        i = i + pl;
    }
}

/// A source key as an identifier, as `sanitized` states.
pub fn sanitize_identifier(raw: &str) -> (r: String)
    ensures
        r@ == sanitized(raw@),
{
    let t = trim_chars(raw);
    assert(t@.skip(0) =~= t@);
    let a = skip_all(&t, 0, &str_chars("https://t.me/"));
    let b = skip_all(&t, a, &str_chars("http://t.me/"));
    let c = skip_all(&t, b, &str_chars("t.me/"));
    let d = crate::text::skip_char(t.as_slice(), c, '@');
    assert(t@.skip(d as int) =~= t@.subrange(d as int, t@.len() as int));
    string_from_range(t.as_slice(), d, t.len())
}

/// Appends `x` in decimal.
fn push_decimal_i128(x: i128, out: &mut Vec<char>)
    requires
        -0x7fff_ffff_ffff_ffff_ffff_ffff <= x,
    ensures
        final(out)@ == old(out)@ + decimal(x as int),
{
    if x < 0 {
        out.push('-');
        push_digits_u128((-x) as u128, out);
        assert(final(out)@ =~= old(out)@ + decimal(x as int));
    } else {
        push_digits_u128(x as u128, out);
    }
}

/// Appends the digits of `n`.
pub(crate) fn push_digits_u128(n: u128, out: &mut Vec<char>)
    ensures
        final(out)@ == old(out)@ + crate::signature::digits(n as nat),
    decreases n,
{
    if n >= 10 {
        push_digits_u128(n / 10, out);
    }
    out.push(((n % 10) as u8 + 48u8) as char);
    proof {
        if n >= 10 {
            assert(old(out)@ + crate::signature::digits(n as nat) =~= old(out)@
                + crate::signature::digits((n / 10) as nat) + seq![
                crate::signature::digit_char((n % 10) as nat),
            ]);
        } else {
            assert(crate::signature::digits(n as nat) =~= seq![
                crate::signature::digit_char(n as nat),
            ]);
        }
    }
}

/// Appends the chars of `s`.
fn push_chars(out: &mut Vec<char>, s: &Vec<char>)
    ensures
        final(out)@ == old(out)@ + s@,
{
    let mut i: usize = 0;
    while i < s.len()
        invariant
            i <= s@.len(),
            out@ =~= old(out)@ + s@.take(i as int),
        decreases s@.len() - i,
    {
        out.push(s[i]);
        i = i + 1;
    }
    assert(s@.take(i as int) =~= s@);
}

/// The private-channel link, as `channel_link` states.
fn make_channel_link(channel: i128, msg_id: i64) -> (r: String)
    requires
        0 <= channel,
    ensures
        r@ == channel_link(channel as int, msg_id),
{
    let mut out = str_chars("https://t.me/c/");
    push_decimal_i128(channel, &mut out);
    push_chars(&mut out, &str_chars("/"));
    push_decimal_i128(msg_id as i128, &mut out);
    string_from_chars(out.as_slice())
}

/// The link to a message, as `message_link` states.
pub fn build_message_link(source_key: &str, chat_id: i64, msg_id: i64) -> (r: Option<String>)
    ensures
        crate::model::opt_str(r) == message_link(source_key@, chat_id, msg_id),
{
    if msg_id <= 0 {
        return None;
    }
    if chat_id <= -1_000_000_000_000 {
        let channel = -(chat_id as i128) - 1_000_000_000_000;
        return Some(make_channel_link(channel, msg_id));
    }
    let key = sanitize_identifier(source_key);
    let kc = str_chars(key.as_str());
    if kc.len() == 0 {
        return None;
    }
    match parse_i64(key.as_str()) {
        Some(id) => {
            if id <= -1_000_000_000_000 {
                let channel = -(id as i128) - 1_000_000_000_000;
                Some(make_channel_link(channel, msg_id))
            } else {
                None
            }
        },
        None => {
            let mut out = str_chars("https://t.me/");
            push_chars(&mut out, &kc);
            push_chars(&mut out, &str_chars("/"));
            push_decimal_i128(msg_id as i128, &mut out);
            Some(string_from_chars(out.as_slice()))
        },
    }
}

/// `a - b` on `i64`, saturating.
pub open spec fn sat_sub_i64(a: int, b: int) -> int {
    if a - b < i64::MIN {
        i64::MIN as int
    } else if a - b > i64::MAX {
        i64::MAX as int
    } else {
        a - b
    }
}

/// `a + b` on `i64`, saturating.
pub open spec fn sat_add_i64(a: int, b: int) -> int {
    if a + b < i64::MIN {
        i64::MIN as int
    } else if a + b > i64::MAX {
        i64::MAX as int
    } else {
        a + b
    }
}

/// Half of `x`, rounded toward zero.
pub open spec fn half_toward_zero(x: int) -> int {
    if x >= 0 {
        x / 2
    } else {
        -((-x) / 2)
    }
}

/// The id range to refetch around an album's ids `min_id..=max_id`: widened to
/// `max_range` ids (half the slack before, the rest after; never below 1), or none when
/// the ids are not positive, out of order, or already span more than `max_range`.
pub open spec fn backfill_range(min_id: i64, max_id: i64, max_range: usize) -> Option<(i64, i64)> {
    if max_range == 0 || min_id <= 0 || max_id <= 0 || max_id < min_id {
        None
    } else {
        let range = max_id - min_id + 1;
        if range > max_range {
            None
        } else {
            let extra = (max_range as i64) - range;
            let before = half_toward_zero(extra);
            let after = extra - before;
            let start = sat_sub_i64(min_id as int, before);
            Some(
                (
                    (if start < 1 {
                        1
                    } else {
                        start
                    }) as i64,
                    sat_add_i64(max_id as int, after) as i64,
                ),
            )
        }
    }
}

/// The range refetched around an album holds all of its ids, starts at 1 or later, and
/// spans at most `max_range` ids.
pub proof fn law_backfill_covers_album(min_id: i64, max_id: i64, max_range: usize)
    requires
        max_range <= i64::MAX,
    ensures
        backfill_range(min_id, max_id, max_range) matches Some((a, b)) ==> 1 <= a <= min_id && max_id
            <= b && b - a + 1 <= max_range,
{
    if let Some((a, b)) = backfill_range(min_id, max_id, max_range) {
        let range = max_id - min_id + 1;
        let extra = (max_range as i64) - range;
        assert(extra >= 0);
        let before = half_toward_zero(extra);
        let after = extra - before;
        assert(0 <= before <= extra);
    }
}

/// The id range to refetch, as `backfill_range` states.
pub fn compute_backfill_range(min_id: i64, max_id: i64, max_range: usize) -> (r: Option<(i64, i64)>)
    requires
        max_range > 0 && min_id > 0 && max_id > 0 && max_id >= min_id && max_id - min_id + 1
            <= max_range ==> (max_range as i64) - (max_id - min_id + 1) >= i64::MIN,
    ensures
        r == backfill_range(min_id, max_id, max_range),
{
    if max_range == 0 || min_id <= 0 || max_id <= 0 || max_id < min_id {
        return None;
    }
    let range: i64 = max_id - min_id + 1;
    if range as u64 > max_range as u64 {
        return None;
    }
    let extra: i128 = (#[verifier::truncate] (max_range as i64)) as i128 - range as i128;
    let before: i128 = if extra >= 0 {
        extra / 2
    } else {
        -((-extra) / 2)
    };
    let after: i128 = extra - before;
    let s = min_id as i128 - before;
    let start: i64 = if s < 1 {
        1
    } else if s > i64::MAX as i128 {
        i64::MAX
    } else {
        s as i64
    };
    let e = max_id as i128 + after;
    let end: i64 = if e > i64::MAX as i128 {
        i64::MAX
    } else if e < i64::MIN as i128 {
        i64::MIN
    } else {
        e as i64
    };
    Some((start, end))
}

/// Whether an error text names a network failure (English words in any case, or the
/// Chinese words for timeout, network, disconnect and connection reset).
pub open spec fn network_error_text(msg: Seq<char>) -> bool {
    let lower = lowercase(msg);
    contains_sub(lower, "read error"@) || contains_sub(lower, "io failed"@) || contains_sub(
        lower,
        "connection"@,
    ) || contains_sub(lower, "timeout"@) || contains_sub(lower, "timed out"@) || contains_sub(
        lower,
        "network"@,
    ) || contains_sub(lower, "reset"@) || contains_sub(lower, "broken pipe"@) || contains_sub(
        lower,
        "transport"@,
    ) || contains_sub(msg, "超时"@) || contains_sub(msg, "网络"@) || contains_sub(msg, "断开"@)
        || contains_sub(msg, "连接重置"@)
}

/// Whether the text of a send error names a network failure, as `network_error_text`
/// states.
pub fn is_network_send_error(message: &str) -> (r: bool)
    ensures
        r == network_error_text(message@),
{
    let m = str_chars(message);
    let lower_s = str_to_lowercase(message);
    let lower = str_chars(lower_s.as_str());
    chars_contain(lower.as_slice(), str_chars("read error").as_slice())
        || chars_contain(lower.as_slice(), str_chars("io failed").as_slice())
        || chars_contain(lower.as_slice(), str_chars("connection").as_slice())
        || chars_contain(lower.as_slice(), str_chars("timeout").as_slice())
        || chars_contain(lower.as_slice(), str_chars("timed out").as_slice())
        || chars_contain(lower.as_slice(), str_chars("network").as_slice())
        || chars_contain(lower.as_slice(), str_chars("reset").as_slice())
        || chars_contain(lower.as_slice(), str_chars("broken pipe").as_slice())
        || chars_contain(lower.as_slice(), str_chars("transport").as_slice())
        || chars_contain(m.as_slice(), str_chars("超时").as_slice())
        || chars_contain(m.as_slice(), str_chars("网络").as_slice())
        || chars_contain(m.as_slice(), str_chars("断开").as_slice())
        || chars_contain(m.as_slice(), str_chars("连接重置").as_slice())
}

/// Whether a run that failed with this error text is retried after a pause: its
/// lowercase form names a network, transport or RPC failure.
pub open spec fn reconnect_error_text(msg: Seq<char>) -> bool {
    let lower = lowercase(msg);
    contains_sub(lower, "read error"@) || contains_sub(lower, "io failed"@) || contains_sub(
        lower,
        "connection"@,
    ) || contains_sub(lower, "timeout"@) || contains_sub(lower, "timed out"@) || contains_sub(
        lower,
        "network"@,
    ) || contains_sub(lower, "reset"@) || contains_sub(lower, "broken pipe"@) || contains_sub(
        lower,
        "transport"@,
    ) || contains_sub(lower, "rpc"@)
}

/// Whether a failed run is retried, as `reconnect_error_text` states.
pub fn should_reconnect(message: &str) -> (r: bool)
    ensures
        r == reconnect_error_text(message@),
{
    let lower_s = str_to_lowercase(message);
    let lower = str_chars(lower_s.as_str());
    chars_contain(lower.as_slice(), str_chars("read error").as_slice())
        || chars_contain(lower.as_slice(), str_chars("io failed").as_slice())
        || chars_contain(lower.as_slice(), str_chars("connection").as_slice())
        || chars_contain(lower.as_slice(), str_chars("timeout").as_slice())
        || chars_contain(lower.as_slice(), str_chars("timed out").as_slice())
        || chars_contain(lower.as_slice(), str_chars("network").as_slice())
        || chars_contain(lower.as_slice(), str_chars("reset").as_slice())
        || chars_contain(lower.as_slice(), str_chars("broken pipe").as_slice())
        || chars_contain(lower.as_slice(), str_chars("transport").as_slice())
        || chars_contain(lower.as_slice(), str_chars("rpc").as_slice())
}

/// `base` after `incoming` (a copy of the same message) is merged into it: the longer
/// trimmed text (a non-empty one over an empty one) with its entities, and the media,
/// album id and chat id where `base` lacks them.
pub open spec fn merged(base: MessageSpec, incoming: MessageSpec) -> MessageSpec {
    let bt = trim_ws(base.text);
    let it = trim_ws(incoming.text);
    let replace = if it.len() == 0 {
        false
    } else if bt.len() == 0 {
        true
    } else {
        it.len() > bt.len()
    };
    let b1 = if replace {
        MessageSpec { text: incoming.text, entities: incoming.entities, ..base }
    } else {
        base
    };
    let b2 = if b1.media is None && incoming.media is Some {
        MessageSpec { media: incoming.media, ..b1 }
    } else {
        b1
    };
    let b3 = if b2.album_id is None && incoming.album_id is Some {
        MessageSpec { album_id: incoming.album_id, ..b2 }
    } else {
        b2
    };
    if b3.chat_id == 0 && incoming.chat_id != 0 {
        MessageSpec { chat_id: incoming.chat_id, ..b3 }
    } else {
        b3
    }
}

/// Merges `incoming` into `base`, as `merged` states.
pub fn merge_message(base: &mut MessageView, incoming: MessageView)
    ensures
        final(base)@ == merged(old(base)@, incoming@),
{
    let bt = trim_chars(base.text.as_str());
    let it = trim_chars(incoming.text.as_str());
    let replace = if it.len() == 0 {
        false
    } else if bt.len() == 0 {
        true
    } else {
        it.len() > bt.len()
    };
    let MessageView { id: _, chat_id, text, entities, media, album_id, is_edit: _ } = incoming;
    if replace {
        base.text = text;
        base.entities = entities;
    }
    if base.media.is_none() && media.is_some() {
        base.media = media;
    }
    if base.album_id.is_none() && album_id.is_some() {
        base.album_id = album_id;
    }
    if base.chat_id == 0 && chat_id != 0 {
        base.chat_id = chat_id;
    }
}

/// `ms` after each of `extra` is merged into the last message with its id, or appended
/// when there is none.
pub open spec fn extended(ms: Seq<MessageSpec>, extra: Seq<MessageSpec>) -> Seq<MessageSpec>
    decreases extra.len(),
{
    if extra.len() == 0 {
        ms
    } else {
        let prev = extended(ms, extra.drop_last());
        let m = extra.last();
        match crate::album::message_index(prev, m.id) {
            Some(i) => prev.update(i, merged(prev[i], m)),
            None => prev.push(m),
        }
    }
}

/// Merges or appends each of `extra`, as `extended` states.
pub fn extend_unique_messages(messages: &mut Vec<MessageView>, extra: Vec<MessageView>)
    ensures
        crate::album::message_views(final(messages)@) == extended(
            crate::album::message_views(old(messages)@),
            crate::album::message_views(extra@),
        ),
{
    let ghost ev = crate::album::message_views(extra@);
    let mut extra = extra;
    let mut k: usize = 0;
    let ghost start = crate::album::message_views(messages@);
    assert(ev.take(0) =~= Seq::<MessageSpec>::empty());
    assert(ev.skip(0) =~= ev);
    assert(ev.len() == extra.len());
    while extra.len() > 0
        invariant
            crate::album::message_views(extra@) == ev.skip(k as int),
            k + extra@.len() == ev.len(),
            ev.len() <= usize::MAX,
            crate::album::message_views(messages@) == extended(start, ev.take(k as int)),
        decreases extra@.len(),
    {
        let ghost xv = crate::album::message_views(extra@);
        let ghost xe = extra@;
        let m = extra.remove(0);
        proof {
            assert(extra@ =~= xe.subrange(1, xe.len() as int));
            assert(crate::album::message_views(extra@) =~= xv.drop_first());
            assert(xv.drop_first() =~= ev.skip(k as int).drop_first());
            assert(ev.skip(k as int).drop_first() =~= ev.skip(k + 1));
            assert(xv[0] == m@);
            assert(ev[k as int] == m@) by {
                assert(ev.skip(k as int)[0] == ev[k as int]);
            }
            assert(crate::album::message_views(extra@) =~= ev.skip(k + 1));
            assert(ev.take(k + 1).drop_last() =~= ev.take(k as int));
            assert(ev.take(k + 1).last() == m@);
            crate::album::lemma_message_index(crate::album::message_views(messages@), m@.id);
        }
        let ghost mv = m@;
        let ghost cur = crate::album::message_views(messages@);
        match crate::album::find_message(messages, m.id) {
            Some(i) => {
                let mut b = messages.remove(i);
                merge_message(&mut b, m);
                messages.insert(i, b);
                assert(crate::album::message_views(messages@) =~= cur.update(i as int, merged(cur[i as int], mv)));
            },
            None => {
                messages.push(m);
                assert(crate::album::message_views(messages@) =~= cur.push(mv));
            },
        }
        k = k + 1;
    }
    assert(ev.take(k as int) =~= ev);
}

/// The album's messages after a held-back text is joined to the first one: after its
/// own text (and a blank line when that is not blank), with its entities moved.
pub open spec fn album_with_text(ms: Seq<MessageSpec>, merged_text: Option<(Seq<char>, Seq<TextEntity>)>) -> Seq<MessageSpec> {
    if ms.len() == 0 {
        ms
    } else {
        match merged_text {
            None => ms,
            Some((t, es)) => if trim_ws(t).len() == 0 {
                ms
            } else {
                let first = ms[0];
                let base = if trim_ws(first.text).len() > 0 {
                    first.text + "\n\n"@
                } else {
                    first.text
                };
                let off = utf16_units(base) as i32;
                ms.update(
                    0,
                    MessageSpec {
                        text: base + t,
                        entities: first.entities + shifted_all(es, off),
                        ..first
                    },
                )
            },
        }
    }
}

/// Joins a held-back text to an album, as `album_with_text` states.
pub fn normalize_album_messages(
    messages: &mut Vec<MessageView>,
    merged: Option<(String, Vec<TextEntity>)>,
    caption_limit: usize,
)
    ensures
        crate::album::message_views(final(messages)@) == album_with_text(
            crate::album::message_views(old(messages)@),
            match merged {
                Some((t, es)) => Some((t@, es@)),
                None => None,
            },
        ),
{
    if messages.len() == 0 {
        return ;
    }
    let (merged_text, merged_entities) = match merged {
        Some(x) => x,
        None => {
            return ;
        },
    };
    if str_is_blank(merged_text.as_str()) {
        return ;
    }
    let ghost ms = crate::album::message_views(messages@);
    let mut first = messages.remove(0);
    let mut nt = str_chars(first.text.as_str());
    if !str_is_blank(first.text.as_str()) {
        nt.push('\n');
        nt.push('\n');
        assert(nt@ =~= first.text@ + "\n\n"@) by {
            reveal_strlit("\n\n");
        }
    }
    let base = string_from_chars(nt.as_slice());
    let off = #[verifier::truncate] (utf16_len(base.as_str()) as i32);
    push_chars(&mut nt, &str_chars(merged_text.as_str()));
    let mut ents = crate::model::copy_entities(first.entities.as_slice());
    let moved = crate::pipeline::shift_entities(merged_entities, off);
    let mut i: usize = 0;
    let ghost e0 = ents@;
    while i < moved.len()
        invariant
            i <= moved@.len(),
            ents@ =~= e0 + moved@.take(i as int),
        decreases moved@.len() - i,
    {
        ents.push(moved[i].duplicate());
        i = i + 1;
    }
    assert(moved@.take(i as int) =~= moved@);
    first.text = string_from_chars(nt.as_slice());
    first.entities = ents;
    messages.insert(0, first);
    assert(crate::album::message_views(messages@) =~= album_with_text(
        ms,
        Some((merged_text@, merged_entities@)),
    ));
}

/// A message whose caption fits: one with media and a text over `caption_limit` UTF-16
/// units is trimmed as `trimmed` states.
pub fn fit_caption(msg: &mut MessageView, caption_limit: usize, header_len: usize, footer_len: usize)
    requires
        old(msg)@.media is Some && utf16_units(old(msg)@.text) > caption_limit ==> entities_fit(
            old(msg).entities@,
        ),
    ensures
        if old(msg)@.media is Some && utf16_units(old(msg)@.text) > caption_limit {
            let (t, es) = trimmed(
                old(msg)@.text,
                old(msg)@.entities,
                caption_limit as int,
                header_len as int,
                footer_len as int,
            );
            final(msg)@ == (MessageSpec { text: t, entities: es, ..old(msg)@ })
        } else {
            final(msg)@ == old(msg)@
        },
{
    if msg.media.is_some() && utf16_len(msg.text.as_str()) > caption_limit {
        let (t, es) = trim_long_entities_if_needed(
            msg.text.as_str(),
            msg.entities.as_slice(),
            caption_limit,
            header_len,
            footer_len,
        );
        msg.text = t;
        msg.entities = es;
    }
}

/// The message to send once the pipeline accepted it: the processed text and
/// entities; when it came with media and the text is over `caption_limit` UTF-16 units
/// (and every entity end fits in `i32`), the caption trimmed as `trimmed` states; and
/// the first media the pipeline kept.
pub open spec fn accepted(
    m: MessageSpec,
    text: Seq<char>,
    es: Seq<TextEntity>,
    media: Seq<MediaSpec>,
    caption_limit: usize,
    header_len: usize,
    footer_len: usize,
) -> MessageSpec {
    let base = MessageSpec { text, entities: es, ..m };
    let fitted = if m.media is Some && utf16_units(text) > caption_limit && entities_fit(es) {
        let (t, e2) = trimmed(text, es, caption_limit as int, header_len as int, footer_len as int);
        MessageSpec { text: t, entities: e2, ..base }
    } else {
        base
    };
    MessageSpec {
        media: if media.len() > 0 {
            Some(media[0])
        } else {
            None
        },
        ..fitted
    }
}

/// A message after the pipeline: `None` when it is not forwarded; otherwise the message
/// to send, as `accepted` states, with the candidate the pipeline staged for it.
pub fn accept_processed(
    msg: MessageView,
    result: PipelineResult,
    caption_limit: usize,
    header_len: usize,
    footer_len: usize,
) -> (r: Option<(MessageView, Option<DedupCommitInfo>)>)
    ensures
        match r {
            None => !result.should_forward,
            Some((m, info)) => {
                &&& result.should_forward
                &&& m@ == accepted(
                    msg@,
                    result.text@,
                    result.entities@,
                    result.media_list@.map_values(|x: MediaView| x@),
                    caption_limit,
                    header_len,
                    footer_len,
                )
                &&& info == result.dedup_info
            },
        },
{
    if !result.should_forward {
        return None;
    }
    let ghost rv = result;
    let PipelineResult { text, entities, media_list, dedup_info, .. } = result;
    let mut m = msg;
    m.text = text;
    m.entities = entities;
    if entity_ends_fit(m.entities.as_slice()) {
        fit_caption(&mut m, caption_limit, header_len, footer_len);
    }
    let mut ml = media_list;
    let ghost mv = ml@.map_values(|x: MediaView| x@);
    m.media = if ml.len() > 0 {
        let first = ml.remove(0);
        assert(first@ == mv[0]);
        Some(first)
    } else {
        None
    };
    Some((m, dedup_info))
}

/// The task made of the messages that survived processing, with their album ids
/// cleared; none when no message survived.
pub fn surviving_task(
    source_key: String,
    messages: Vec<MessageView>,
    is_album: bool,
    dedup_infos: Vec<DedupCommitInfo>,
) -> (r: Option<ForwardTask>)
    ensures
        match r {
            None => messages@.len() == 0,
            Some(t) => {
                &&& messages@.len() > 0
                &&& t.source_key@ == source_key@
                &&& t.is_album == is_album
                &&& t.dedup_infos@ == dedup_infos@
                &&& t.messages@.len() == messages@.len()
                &&& forall|i: int|
                    0 <= i < messages@.len() ==> (#[trigger] t.messages@[i])@ == (MessageSpec {
                        album_id: None,
                        ..messages@[i]@
                    })
            },
        },
{
    if messages.len() == 0 {
        return None;
    }
    let mut messages = messages;
    clear_album_ids(&mut messages);
    Some(ForwardTask { source_key, messages, is_album, dedup_infos })
}

/// Takes the album ids off the messages of a task that is not sent as an album.
pub fn clear_album_ids(messages: &mut Vec<MessageView>)
    ensures
        final(messages)@.len() == old(messages)@.len(),
        forall|i: int|
            0 <= i < old(messages)@.len() ==> (#[trigger] final(messages)@[i])@ == (MessageSpec {
                album_id: None,
                ..old(messages)@[i]@
            }),
{
    let mut i: usize = 0;
    while i < messages.len()
        invariant
            i <= messages@.len(),
            messages@.len() == old(messages)@.len(),
            forall|j: int|
                0 <= j < i ==> (#[trigger] messages@[j])@ == (MessageSpec {
                    album_id: None,
                    ..old(messages)@[j]@
                }),
            forall|j: int| i <= j < messages@.len() ==> messages@[j] == old(messages)@[j],
        decreases messages@.len() - i,
    {
        let mut m = messages.remove(i);
        m.album_id = None;
        messages.insert(i, m);
        i = i + 1;
    }
}

/// What an entity is sent with besides its kind and place.
pub enum EntityExtra {
    /// Nothing more.
    Plain,
    /// A link's address.
    Url(String),
    /// A code block's language.
    Language(String),
    /// Whether a quote is collapsed.
    Collapsed(bool),
    /// A custom emoji's document id.
    DocumentId(i64),
}

/// The data of an entity, or the empty text when it has none.
pub open spec fn data_or_empty(data: Option<String>) -> Seq<char> {
    match data {
        Some(d) => d@,
        None => Seq::empty(),
    }
}

/// What an entity is sent with, or `None` when it is dropped: a link without an
/// address, or a custom emoji whose data is no `i64` as `i64::from_str` reads it. A code
/// block takes its data as language (empty without), and a quote is collapsed exactly
/// when its data is `true`.
pub fn send_extra(e: &TextEntity) -> (r: Option<EntityExtra>)
    ensures
        match e.entity_type {
            EntityType::TextUrl => match e.data {
                Some(d) => r matches Some(EntityExtra::Url(u)) && u@ == d@,
                None => r is None,
            },
            EntityType::CustomEmoji => match e.data {
                Some(d) => match parsed_i64(d@) {
                    Some(n) => r == Some(EntityExtra::DocumentId(n)),
                    None => r is None,
                },
                None => r is None,
            },
            EntityType::Pre => r matches Some(EntityExtra::Language(l)) && l@ == data_or_empty(
                e.data,
            ),
            EntityType::Blockquote => r == Some(
                EntityExtra::Collapsed(
                    match e.data {
                        Some(d) => d@ == "true"@,
                        None => false,
                    },
                ),
            ),
            _ => r == Some(EntityExtra::Plain),
        },
{
    match e.entity_type {
        EntityType::TextUrl => match &e.data {
            Some(d) => Some(EntityExtra::Url(d.clone())),
            None => None,
        },
        EntityType::CustomEmoji => match &e.data {
            Some(d) => match parse_i64(d.as_str()) {
                Some(n) => Some(EntityExtra::DocumentId(n)),
                None => None,
            },
            None => None,
        },
        EntityType::Pre => match &e.data {
            Some(d) => Some(EntityExtra::Language(d.clone())),
            None => Some(EntityExtra::Language(String::new())),
        },
        EntityType::Blockquote => match &e.data {
            Some(d) => Some(EntityExtra::Collapsed(str_eq(d.as_str(), "true"))),
            None => Some(EntityExtra::Collapsed(false)),
        },
        _ => Some(EntityExtra::Plain),
    }
}

} // verus!
