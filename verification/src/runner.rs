//! Decisions of the forwarder's run loops: how fetched messages are grouped into tasks,
//! how an album is completed before it is sent, where polling starts, and how the loops
//! react to what happens around them.
use crate::album::message_views;
use crate::forward::{backfill_range, compute_backfill_range, extend_unique_messages, extended, ForwardTask};
use crate::model::{MessageSpec, MessageView};
use crate::signature::{decimal, push_decimal};
use crate::table::{str_eq, StrMap};
use crate::utf16::{str_chars, string_from_chars};
use vstd::prelude::*;

verus! {

/// How a run of the forwarder ended.
#[derive(Debug, Clone, Copy, PartialEq, Eq, Structural)]
pub enum RunOutcome {
    Exit,
    Reload,
}

/// Whether message ids never decrease along `ms`.
pub open spec fn sorted_by_id(ms: Seq<MessageSpec>) -> bool {
    forall|i: int, j: int| 0 <= i < j < ms.len() ==> ms[i].id <= ms[j].id
}

/// The messages of `ms` with id `k`, in order.
pub open spec fn with_id(ms: Seq<MessageSpec>, k: i64) -> Seq<MessageSpec> {
    ms.filter(|m: MessageSpec| m.id == k)
}

/// Whether `out` is `ms` sorted by id with messages of equal id kept in their order.
pub open spec fn stable_sorted(ms: Seq<MessageSpec>, out: Seq<MessageSpec>) -> bool {
    sorted_by_id(out) && forall|k: i64| #[trigger] with_id(out, k) == with_id(ms, k)
}

/// Sorts messages by id with `slice::sort_by_key`, which std documents as a stable
/// sort: ids come out in order, and messages of one id keep their order.
#[verifier::external_body]
fn sort_by_id(v: &mut Vec<MessageView>)
    ensures
        stable_sorted(message_views(old(v)@), message_views(final(v)@)),
{
    v.sort_by_key(|m| m.id);
}

/// Puts messages in id order before an album is sent, as `stable_sorted` states.
pub fn order_by_id(messages: &mut Vec<MessageView>)
    ensures
        stable_sorted(message_views(old(messages)@), message_views(final(messages)@)),
{
    sort_by_id(messages);
}

/// Tasks built from a run of messages: the open album group, its album id, and the
/// groups already closed (each with whether it is an album).
pub struct GroupState {
    pub cur_id: Option<i64>,
    pub cur: Seq<MessageSpec>,
    pub out: Seq<(Seq<MessageSpec>, bool)>,
}

/// `out` with the album group `cur` closed, when it has messages.
pub open spec fn close_group(
    out: Seq<(Seq<MessageSpec>, bool)>,
    cur: Seq<MessageSpec>,
) -> Seq<(Seq<MessageSpec>, bool)> {
    if cur.len() > 0 {
        out.push((cur, true))
    } else {
        out
    }
}

/// One message more: a message of the open album joins it; one of another album closes
/// it and opens its own; a message outside albums closes it and becomes a task alone.
pub open spec fn group_step(st: GroupState, m: MessageSpec) -> GroupState {
    match m.album_id {
        Some(g) => if st.cur_id is None || st.cur_id == Some(g) {
            GroupState { cur_id: Some(g), cur: st.cur.push(m), out: st.out }
        } else {
            GroupState { cur_id: Some(g), cur: seq![m], out: close_group(st.out, st.cur) }
        },
        None => GroupState {
            cur_id: None,
            cur: Seq::empty(),
            out: close_group(st.out, st.cur).push((seq![m], false)),
        },
    }
}

/// The state after all of `ms`.
pub open spec fn group_fold(ms: Seq<MessageSpec>) -> GroupState
    decreases ms.len(),
{
    if ms.len() == 0 {
        GroupState { cur_id: None, cur: Seq::empty(), out: Seq::empty() }
    } else {
        group_step(group_fold(ms.drop_last()), ms.last())
    }
}

/// The groups of `ms`, the last album group closed.
pub open spec fn dispatch_groups(ms: Seq<MessageSpec>) -> Seq<(Seq<MessageSpec>, bool)> {
    let st = group_fold(ms);
    close_group(st.out, st.cur)
}

/// A task's messages and album flag as mathematical values.
pub open spec fn task_shape(t: ForwardTask) -> (Seq<MessageSpec>, bool) {
    (message_views(t.messages@), t.is_album)
}

fn new_task(source: &str, messages: Vec<MessageView>, is_album: bool) -> (t: ForwardTask)
    ensures
        t.source_key@ == source@,
        t.messages@ == messages@,
        t.is_album == is_album,
        t.dedup_infos@.len() == 0,
{
    ForwardTask {
        source_key: crate::utf16::string_from_chars(crate::utf16::str_chars(source).as_slice()),
        messages,
        is_album,
        dedup_infos: Vec::new(),
    }
}

/// The tasks for messages fetched to catch up on `source`: sorted by id, then grouped as
/// `dispatch_groups` states, so that an album is not split up.
pub fn catch_up_tasks(source: &str, messages: Vec<MessageView>) -> (r: Vec<ForwardTask>)
    ensures
        exists|s: Seq<MessageSpec>|
            stable_sorted(message_views(messages@), s) && r@.map_values(|t: ForwardTask| task_shape(t))
                == dispatch_groups(s),
        forall|i: int|
            0 <= i < r@.len() ==> (#[trigger] r@[i]).source_key@ == source@ && r@[i].dedup_infos@.len() == 0,
{
    let mut ms = messages;
    sort_by_id(&mut ms);
    let ghost s = message_views(ms@);
    let mut out: Vec<ForwardTask> = Vec::new();
    let mut cur: Vec<MessageView> = Vec::new();
    let mut cur_id: Option<i64> = None;
    let mut rest = ms;
    let ghost n = s.len();
    let total = rest.len();
    let mut i: usize = 0;
    while rest.len() > 0
        invariant
            n == s.len(),
            n == total,
            i + rest@.len() == n,
            forall|j: int| 0 <= j < rest@.len() ==> (#[trigger] rest@[j])@ == s[i + j],
            ({
                let st = group_fold(s.take(i as int));
                &&& st.cur_id == cur_id
                &&& st.cur == message_views(cur@)
                &&& st.out == out@.map_values(|t: ForwardTask| task_shape(t))
            }),
            forall|j: int|
                0 <= j < out@.len() ==> (#[trigger] out@[j]).source_key@ == source@ && out@[j].dedup_infos@.len() == 0,
        decreases rest@.len(),
    {
        let ghost before_out = out@.map_values(|t: ForwardTask| task_shape(t));
        let ghost before_cur = message_views(cur@);
        let ghost before_rest = rest@;
        let m = rest.remove(0);
        assert forall|j: int| 0 <= j < rest@.len() implies (#[trigger] rest@[j])@ == s[i + 1 + j] by {
            assert(rest@[j] == before_rest[j + 1]);
        }
        proof {
            assert(s.take(i + 1).drop_last() =~= s.take(i as int));
            assert(s.take(i + 1).last() == s[i as int]);
            assert(m@ == s[i as int]);
        }
        match m.album_id {
            Some(g) => {
                let joins = match cur_id {
                    None => true,
                    Some(c) => c == g,
                };
                if joins {
                    cur.push(m);
                    cur_id = Some(g);
                    assert(message_views(cur@) =~= before_cur.push(s[i as int]));
                } else {
                    let mut group: Vec<MessageView> = Vec::new();
                    std::mem::swap(&mut group, &mut cur);
                    if group.len() > 0 {
                        out.push(new_task(source, group, true));
                        assert(out@.map_values(|t: ForwardTask| task_shape(t)) =~= before_out.push(
                            (before_cur, true),
                        ));
                    } else {
                        assert(before_cur =~= Seq::<MessageSpec>::empty());
                    }
                    cur.push(m);
                    cur_id = Some(g);
                    assert(message_views(cur@) =~= seq![s[i as int]]);
                }
            },
            None => {
                let mut group: Vec<MessageView> = Vec::new();
                std::mem::swap(&mut group, &mut cur);
                if group.len() > 0 {
                    out.push(new_task(source, group, true));
                    assert(out@.map_values(|t: ForwardTask| task_shape(t)) =~= before_out.push(
                        (before_cur, true),
                    ));
                } else {
                    assert(before_cur =~= Seq::<MessageSpec>::empty());
                }
                let ghost mid = out@.map_values(|t: ForwardTask| task_shape(t));
                let mut single: Vec<MessageView> = Vec::new();
                single.push(m);
                assert(message_views(single@) =~= seq![s[i as int]]);
                out.push(new_task(source, single, false));
                assert(out@.map_values(|t: ForwardTask| task_shape(t)) =~= mid.push(
                    (seq![s[i as int]], false),
                ));
                cur_id = None;
                assert(message_views(cur@) =~= Seq::<MessageSpec>::empty());
            },
        }
        i = i + 1;
    }
    assert(s.take(n as int) =~= s);
    let ghost before_out = out@.map_values(|t: ForwardTask| task_shape(t));
    let ghost before_cur = message_views(cur@);
    if cur.len() > 0 {
        out.push(new_task(source, cur, true));
        assert(out@.map_values(|t: ForwardTask| task_shape(t)) =~= before_out.push((before_cur, true)));
    }
    assert(stable_sorted(message_views(messages@), s) && out@.map_values(|t: ForwardTask| task_shape(t))
        == dispatch_groups(s));
    out
}

/// The smallest and largest id of `ms`.
pub open spec fn min_id(ms: Seq<MessageSpec>) -> i64
    decreases ms.len(),
{
    if ms.len() == 0 {
        0
    } else if ms.len() == 1 {
        ms[0].id
    } else {
        let m = min_id(ms.drop_last());
        if ms.last().id < m {
            ms.last().id
        } else {
            m
        }
    }
}

/// The largest id of `ms`.
pub open spec fn max_id(ms: Seq<MessageSpec>) -> i64
    decreases ms.len(),
{
    if ms.len() == 0 {
        0
    } else if ms.len() == 1 {
        ms[0].id
    } else {
        let m = max_id(ms.drop_last());
        if ms.last().id > m {
            ms.last().id
        } else {
            m
        }
    }
}

/// The album id of an album's first message, 0 when it has none.
pub open spec fn album_id_of(ms: Seq<MessageSpec>) -> i64 {
    if ms.len() > 0 {
        match ms[0].album_id {
            Some(g) => g,
            None => 0,
        }
    } else {
        0
    }
}

/// Which ids to fetch to complete an album that is due: only a real album (id above 0)
/// is completed, over the range that `backfill_range` gives for its smallest and largest
/// id. The answer carries the album id with the range.
pub open spec fn backfill_plan(ms: Seq<MessageSpec>, max_range: usize) -> Option<(i64, i64, i64)> {
    if ms.len() == 0 || album_id_of(ms) <= 0 {
        None
    } else {
        match backfill_range(min_id(ms), max_id(ms), max_range) {
            Some((a, b)) => Some((album_id_of(ms), a, b)),
            None => None,
        }
    }
}

/// Whether the range arithmetic of `backfill_range` stays within `i64` for `ms`.
pub open spec fn backfill_in_range(ms: Seq<MessageSpec>, max_range: usize) -> bool {
    let lo = min_id(ms);
    let hi = max_id(ms);
    max_range > 0 && lo > 0 && hi > 0 && hi >= lo && hi - lo + 1 <= max_range ==> (max_range as i64)
        - (hi - lo + 1) >= i64::MIN
}

/// Which ids to fetch to complete an album, as `backfill_plan` states.
pub fn album_backfill_plan(messages: &Vec<MessageView>, max_range: usize) -> (r: Option<(i64, i64, i64)>)
    requires
        backfill_in_range(message_views(messages@), max_range),
    ensures
        r == backfill_plan(message_views(messages@), max_range),
{
    let ghost ms = message_views(messages@);
    if messages.len() == 0 {
        return None;
    }
    let album_id = match messages[0].album_id {
        Some(g) => g,
        None => 0,
    };
    if album_id <= 0 {
        return None;
    }
    let mut lo = messages[0].id;
    let mut hi = messages[0].id;
    let mut i: usize = 1;
    assert(ms.take(1) =~= seq![ms[0]]);
    while i < messages.len()
        invariant
            1 <= i <= messages@.len(),
            ms == message_views(messages@),
            lo == min_id(ms.take(i as int)),
            hi == max_id(ms.take(i as int)),
        decreases messages@.len() - i,
    {
        assert(ms.take(i + 1).drop_last() =~= ms.take(i as int));
        let id = messages[i].id;
        if id < lo {
            lo = id;
        }
        if id > hi {
            hi = id;
        }
        i = i + 1;
    }
    assert(ms.take(messages@.len() as int) =~= ms);
    match compute_backfill_range(lo, hi, max_range) {
        Some((a, b)) => Some((album_id, a, b)),
        None => None,
    }
}

/// The fetched messages that belong to album `album_id`.
pub open spec fn of_album(ms: Seq<MessageSpec>, album_id: i64) -> Seq<MessageSpec> {
    ms.filter(|m: MessageSpec| m.album_id == Some(album_id))
}

/// Adds the fetched messages of album `album_id` to the album, merging those it
/// already has, as `extended` states.
pub fn absorb_backfill(messages: &mut Vec<MessageView>, fetched: Vec<MessageView>, album_id: i64)
    ensures
        message_views(final(messages)@) == extended(
            message_views(old(messages)@),
            of_album(message_views(fetched@), album_id),
        ),
{
    let ghost fv = message_views(fetched@);
    let mut kept: Vec<MessageView> = Vec::new();
    let mut rest = fetched;
    let ghost n = fv.len();
    let total = rest.len();
    let mut i: usize = 0;
    while rest.len() > 0
        invariant
            n == fv.len(),
            n == total,
            i + rest@.len() == n,
            forall|j: int| 0 <= j < rest@.len() ==> (#[trigger] rest@[j])@ == fv[i + j],
            message_views(kept@) == of_album(fv.take(i as int), album_id),
        decreases rest@.len(),
    {
        let ghost before = message_views(kept@);
        let ghost before_rest = rest@;
        let m = rest.remove(0);
        assert forall|j: int| 0 <= j < rest@.len() implies (#[trigger] rest@[j])@ == fv[i + 1 + j] by {
            assert(rest@[j] == before_rest[j + 1]);
        }
        proof {
            assert(fv.take(i + 1).drop_last() =~= fv.take(i as int));
            assert(m@ == fv[i as int]);
            reveal(Seq::filter);
        }
        if m.album_id == Some(album_id) {
            kept.push(m);
            assert(message_views(kept@) =~= before.push(fv[i as int]));
        }
        i = i + 1;
    }
    assert(fv.take(n as int) =~= fv);
    extend_unique_messages(messages, kept);
}

/// Sets `k` to `v` in `m`, replacing any value it had.
fn map_insert(m: &mut StrMap<String>, k: &str, v: String)
    requires
        old(m).wf(),
    ensures
        final(m).wf(),
        final(m)@ == old(m)@.insert(k@, v),
{
    match m.find(k) {
        Some(i) => {
            m.replace(i, v);
        },
        None => {
            m.push(string_from_chars(str_chars(k).as_slice()), v);
        },
    }
}

/// `x` in decimal, as a `String`.
fn decimal_string(x: i64) -> (r: String)
    ensures
        r@ == decimal(x as int),
{
    let mut out: Vec<char> = Vec::new();
    push_decimal(x, &mut out);
    assert(out@ =~= decimal(x as int));
    string_from_chars(out.as_slice())
}

/// What registering a resolved source did.
#[derive(Debug, Clone, Copy, PartialEq, Eq, Structural)]
pub enum Registration {
    /// The chat id was 0; nothing was recorded.
    Skipped,
    /// The chat was already registered under another source; only the source's own
    /// key was recorded.
    Duplicate,
    /// The chat was registered for the first time.
    New,
}

/// The sources being listened to: each chat once, keyed by its id in decimal, with the
/// configured source it came from, and the key of every configured source.
pub struct SourceRegistry {
    chats: Vec<(i64, String)>,
    alias: StrMap<String>,
    reverse: StrMap<String>,
}

/// A registry as mathematical values: the chats in the order they were registered, the
/// source of each stable key, and the stable key of each source.
pub struct RegistrySpec {
    pub chats: Seq<i64>,
    pub alias: Map<Seq<char>, Seq<char>>,
    pub reverse: Map<Seq<char>, Seq<char>>,
}

/// The registry after registering `source`, resolved to `chat_id`.
pub open spec fn registered(r: RegistrySpec, source: Seq<char>, chat_id: i64) -> (RegistrySpec, Registration) {
    let key = decimal(chat_id as int);
    if chat_id == 0 {
        (r, Registration::Skipped)
    } else if r.chats.contains(chat_id) {
        (RegistrySpec { reverse: r.reverse.insert(source, key), ..r }, Registration::Duplicate)
    } else {
        (
            RegistrySpec {
                chats: r.chats.push(chat_id),
                alias: r.alias.insert(key, source),
                reverse: r.reverse.insert(source, key),
            },
            Registration::New,
        )
    }
}

impl View for SourceRegistry {
    type V = RegistrySpec;

    closed spec fn view(&self) -> RegistrySpec {
        RegistrySpec {
            chats: self.chats@.map_values(|c: (i64, String)| c.0),
            alias: self.alias@.map_values(|s: String| s@),
            reverse: self.reverse@.map_values(|s: String| s@),
        }
    }
}

impl SourceRegistry {
    /// Each chat's key is its id in decimal, no chat appears twice, and every chat has
    /// its source recorded.
    pub closed spec fn wf(&self) -> bool {
        &&& self.alias.wf()
        &&& self.reverse.wf()
        &&& forall|i: int| 0 <= i < self.chats@.len() ==> (#[trigger] self.chats@[i]).1@ == decimal(
            self.chats@[i].0 as int,
        ) && self.alias@.contains_key(self.chats@[i].1@)
        &&& forall|i: int, j: int|
            0 <= i < j < self.chats@.len() ==> (#[trigger] self.chats@[i]).0 != (#[trigger] self.chats@[j]).0
    }

    /// An empty registry.
    pub fn new() -> (r: Self)
        ensures
            r.wf(),
            r@ == (RegistrySpec {
                chats: Seq::empty(),
                alias: Map::empty(),
                reverse: Map::empty(),
            }),
    {
        let r = SourceRegistry { chats: Vec::new(), alias: StrMap::new(), reverse: StrMap::new() };
        assert(r@.chats =~= Seq::<i64>::empty());
        assert(r@.alias =~= Map::<Seq<char>, Seq<char>>::empty());
        assert(r@.reverse =~= Map::<Seq<char>, Seq<char>>::empty());
        r
    }

    fn chat_index(&self, chat_id: i64) -> (r: Option<usize>)
        ensures
            match r {
                Some(i) => i < self.chats@.len() && self.chats@[i as int].0 == chat_id,
                None => !self@.chats.contains(chat_id),
            },
    {
        let mut i: usize = 0;
        while i < self.chats.len()
            invariant
                i <= self.chats@.len(),
                forall|j: int| 0 <= j < i ==> self.chats@[j].0 != chat_id,
            decreases self.chats@.len() - i,
        {
            if self.chats[i].0 == chat_id {
                return Some(i);
            }
            i = i + 1;
        }
        proof {
            if self@.chats.contains(chat_id) {
                let j = choose|j: int| 0 <= j < self@.chats.len() && self@.chats[j] == chat_id;
                assert(self.chats@[j].0 == chat_id);
            }
        }
        None
    }

    /// Records that `source` resolved to `chat_id`, as `registered` states.
    pub fn register(&mut self, source: &str, chat_id: i64) -> (r: Registration)
        requires
            old(self).wf(),
        ensures
            final(self).wf(),
            (final(self)@, r) == registered(old(self)@, source@, chat_id),
    {
        if chat_id == 0 {
            return Registration::Skipped;
        }
        let key = decimal_string(chat_id);
        match self.chat_index(chat_id) {
            Some(i) => {
                proof {
                    assert(self@.chats[i as int] == chat_id);
                }
                let ghost before = *self;
                map_insert(&mut self.reverse, source, key);
                assert(self@.reverse =~= before@.reverse.insert(source@, decimal(chat_id as int)));
                Registration::Duplicate
            },
            None => {
                let ghost before = *self;
                let k2 = decimal_string(chat_id);
                let k3 = decimal_string(chat_id);
                map_insert(&mut self.alias, k2.as_str(), string_from_chars(str_chars(source).as_slice()));
                map_insert(&mut self.reverse, source, k3);
                self.chats.push((chat_id, key));
                proof {
                    let n = before.chats@.len() as int;
                    assert(self@.chats =~= before@.chats.push(chat_id));
                    assert(self@.alias =~= before@.alias.insert(decimal(chat_id as int), source@));
                    assert(self@.reverse =~= before@.reverse.insert(source@, decimal(chat_id as int)));
                    assert forall|a: int, b: int|
                        0 <= a < b < self.chats@.len() implies (#[trigger] self.chats@[a]).0 != (
                        #[trigger] self.chats@[b]).0 by {
                        if b == n {
                            assert(before@.chats[a] == self.chats@[a].0);
                        } else {
                            assert(before.chats@[a] == self.chats@[a] && before.chats@[b] == self.chats@[b]);
                        }
                    }
                    assert forall|a: int| 0 <= a < self.chats@.len() implies (#[trigger] self.chats@[a]).1@
                        == decimal(self.chats@[a].0 as int) && self.alias@.contains_key(self.chats@[a].1@) by {
                        if a < n {
                            assert(before.chats@[a] == self.chats@[a]);
                        }
                    }
                }
                Registration::New
            },
        }
    }

    /// The stable key of the chat `chat_id`, when it is registered.
    pub fn stable_key_of(&self, chat_id: i64) -> (r: Option<String>)
        requires
            self.wf(),
        ensures
            match r {
                Some(k) => self@.chats.contains(chat_id) && k@ == decimal(chat_id as int),
                None => !self@.chats.contains(chat_id),
            },
    {
        match self.chat_index(chat_id) {
            Some(i) => {
                proof {
                    assert(self@.chats[i as int] == chat_id);
                }
                Some(self.chats[i].1.clone())
            },
            None => None,
        }
    }

    /// The stable keys of the registered chats, in the order they were registered.
    pub fn stable_sources(&self) -> (r: Vec<String>)
        requires
            self.wf(),
        ensures
            r@.len() == self@.chats.len(),
            forall|i: int| 0 <= i < r@.len() ==> (#[trigger] r@[i])@ == decimal(self@.chats[i] as int),
    {
        let mut out: Vec<String> = Vec::new();
        let mut i: usize = 0;
        while i < self.chats.len()
            invariant
                self.wf(),
                i <= self.chats@.len(),
                out@.len() == i,
                forall|j: int| 0 <= j < i ==> (#[trigger] out@[j])@ == decimal(self@.chats[j] as int),
            decreases self.chats@.len() - i,
        {
            out.push(self.chats[i].1.clone());
            i = i + 1;
        }
        out
    }

    /// The configured source behind a stable key.
    pub fn alias_of(&self, stable_key: &str) -> (r: Option<String>)
        requires
            self.wf(),
        ensures
            match r {
                Some(s) => self@.alias.contains_key(stable_key@) && s@ == self@.alias[stable_key@],
                None => !self@.alias.contains_key(stable_key@),
            },
    {
        match self.alias.find(stable_key) {
            Some(i) => Some(self.alias.val(i).clone()),
            None => None,
        }
    }

    /// Every configured source with its stable key.
    pub fn source_keys(&self) -> (r: Vec<(String, String)>)
        requires
            self.wf(),
        ensures
            forall|i: int| 0 <= i < r@.len() ==> self@.reverse.contains_key((#[trigger] r@[i]).0@)
                && self@.reverse[r@[i].0@] == r@[i].1@,
            forall|k: Seq<char>| #[trigger] self@.reverse.contains_key(k) ==> exists|i: int|
                0 <= i < r@.len() && r@[i].0@ == k,
    {
        proof {
            self.reverse.lemma_view_keys();
        }
        let mut out: Vec<(String, String)> = Vec::new();
        let mut i: usize = 0;
        while i < self.reverse.len()
            invariant
                self.wf(),
                i <= self.reverse.spec_len(),
                out@.len() == i,
                forall|j: int| 0 <= j < i ==> (#[trigger] out@[j]).0@ == self.reverse.key_at(j)
                    && out@[j].1 == self.reverse.val_at(j),
                forall|j: int| 0 <= j < self.reverse.spec_len() ==> #[trigger] self.reverse@[self.reverse.key_at(j)]
                    == self.reverse.val_at(j) && self.reverse@.contains_key(self.reverse.key_at(j)),
                forall|k: Seq<char>| #[trigger] self.reverse@.contains_key(k) <==> exists|j: int|
                    0 <= j < self.reverse.spec_len() && self.reverse.key_at(j) == k,
            decreases self.reverse.spec_len() - i,
        {
            let k = self.reverse.key(i).clone();
            let v = self.reverse.val(i).clone();
            out.push((k, v));
            i = i + 1;
        }
        proof {
            assert forall|k: Seq<char>| #[trigger] self@.reverse.contains_key(k) implies exists|q: int|
                0 <= q < out@.len() && out@[q].0@ == k by {
                let j = choose|j: int| 0 <= j < self.reverse.spec_len() && self.reverse.key_at(j) == k;
                assert(out@[j].0@ == k);
            }
        }
        out
    }
}

/// The id that polling of a source starts from: `past_limit` messages back from the
/// latest one, with the count taken as `i64` the way a cast does, and the subtraction
/// saturating.
pub open spec fn past_start(latest_id: i64, past_limit: usize) -> i64 {
    let k: int = if past_limit == 0 {
        0
    } else {
        past_limit - 1
    };
    let kk: int = if k <= i64::MAX {
        k
    } else {
        k - 0x1_0000_0000_0000_0000
    };
    let v = latest_id - kk;
    if v < i64::MIN {
        i64::MIN
    } else if v > i64::MAX {
        i64::MAX
    } else {
        v as i64
    }
}

/// Where polling of a source starts, as `past_start` states.
pub fn past_start_id(latest_id: i64, past_limit: usize) -> (r: i64)
    ensures
        r == past_start(latest_id, past_limit),
{
    let k: u64 = if past_limit == 0 {
        0
    } else {
        (past_limit - 1) as u64
    };
    let kk: i128 = if k <= i64::MAX as u64 {
        k as i128
    } else {
        k as i128 - 0x1_0000_0000_0000_0000
    };
    let v: i128 = latest_id as i128 - kk;
    if v < i64::MIN as i128 {
        i64::MIN
    } else if v > i64::MAX as i128 {
        i64::MAX
    } else {
        v as i64
    }
}

/// The id a poll asks for messages after: the stored position, raised to the start of
/// the source's window when there is one.
pub fn effective_min_id(stored: i64, start: Option<i64>) -> (r: i64)
    ensures
        r == match start {
            Some(s) => if stored < s {
                s
            } else {
                stored
            },
            None => stored,
        },
{
    match start {
        Some(s) => if stored < s {
            s
        } else {
            stored
        },
        None => stored,
    }
}

/// The messages of one poll that get handled: those not already being sent, oldest
/// first (a poll returns them newest first).
pub open spec fn poll_batch(ms: Seq<MessageSpec>, inflight: Seq<i64>) -> Seq<MessageSpec> {
    ms.filter(|m: MessageSpec| !inflight.contains(m.id)).reverse()
}

/// The messages of one poll that get handled, as `poll_batch` states.
pub fn past_batch(messages: Vec<MessageView>, inflight: &Vec<i64>) -> (r: Vec<MessageView>)
    ensures
        message_views(r@) == poll_batch(message_views(messages@), inflight@),
{
    let ghost mv = message_views(messages@);
    let mut kept: Vec<MessageView> = Vec::new();
    let mut rest = messages;
    let ghost n = mv.len();
    let total = rest.len();
    let mut i: usize = 0;
    while rest.len() > 0
        invariant
            n == mv.len(),
            n == total,
            i + rest@.len() == n,
            forall|j: int| 0 <= j < rest@.len() ==> (#[trigger] rest@[j])@ == mv[i + j],
            message_views(kept@) == mv.take(i as int).filter(|m: MessageSpec| !inflight@.contains(m.id)).reverse(),
        decreases rest@.len(),
    {
        let ghost before = message_views(kept@);
        let ghost before_rest = rest@;
        let m = rest.remove(0);
        assert forall|j: int| 0 <= j < rest@.len() implies (#[trigger] rest@[j])@ == mv[i + 1 + j] by {
            assert(rest@[j] == before_rest[j + 1]);
        }
        proof {
            assert(mv.take(i + 1).drop_last() =~= mv.take(i as int));
            assert(m@ == mv[i as int]);
            reveal(Seq::filter);
        }
        let mut hit = false;
        let mut k: usize = 0;
        while k < inflight.len()
            invariant
                k <= inflight@.len(),
                hit == exists|q: int| 0 <= q < k && inflight@[q] == m.id,
            decreases inflight@.len() - k,
        {
            if inflight[k] == m.id {
                hit = true;
            }
            k = k + 1;
        }
        if !hit {
            let ghost before_kept = kept@;
            kept.insert(0, m);
            proof {
                assert(!inflight@.contains(mv[i as int].id));
                let f = |x: MessageSpec| !inflight@.contains(x.id);
                let prev = mv.take(i as int).filter(f);
                assert(mv.take(i + 1).filter(f) =~= prev.push(mv[i as int]));
                assert(kept@ =~= seq![m] + before_kept);
                assert(message_views(kept@) =~= seq![mv[i as int]] + prev.reverse());
                assert(seq![mv[i as int]] + prev.reverse() =~= prev.push(mv[i as int]).reverse());
            }
        } else {
            proof {
                assert(inflight@.contains(mv[i as int].id));
                let f = |x: MessageSpec| !inflight@.contains(x.id);
                assert(mv.take(i + 1).filter(f) =~= mv.take(i as int).filter(f));
            }
        }
        i = i + 1;
    }
    assert(mv.take(n as int) =~= mv);
    kept
}

/// What happens while waiting for updates in live mode.
#[derive(Debug, Clone, Copy, PartialEq, Eq, Structural)]
pub enum LiveEvent {
    /// The update stream ended.
    UpdatesClosed,
    /// An update arrived: a message with its id and chat, and whether it is an edit;
    /// `known` tells whether its chat is a registered source.
    Update { id: i64, chat_id: i64, is_edit: bool, known: bool },
    /// No update came within the idle timeout.
    IdleTimeout,
    /// A watched file changed.
    ConfigChanged,
    /// The user asked the program to stop.
    Interrupt,
}

/// What the live loop does next.
#[derive(Debug, Clone, Copy, PartialEq, Eq, Structural)]
pub enum LoopStep {
    /// Keep going, handling the update when `handle` is set.
    Continue { handle: bool },
    /// Leave the loop with `outcome`; `drain` starts draining and `force_exit` asks
    /// the program to end.
    Stop { outcome: RunOutcome, drain: bool, force_exit: bool },
}

/// The live loop's answer to an event: once draining, an update ends the run; a closed
/// stream, a crash notice (id 0, chat 0, marked as edit) or an idle timeout reloads; a
/// file change reloads after draining; an interrupt exits after draining.
pub open spec fn live_decision(draining: bool, e: LiveEvent) -> LoopStep {
    match e {
        LiveEvent::UpdatesClosed => if draining {
            LoopStep::Stop { outcome: RunOutcome::Exit, drain: false, force_exit: false }
        } else {
            LoopStep::Stop { outcome: RunOutcome::Reload, drain: false, force_exit: false }
        },
        LiveEvent::Update { id, chat_id, is_edit, known } => if draining {
            LoopStep::Stop { outcome: RunOutcome::Exit, drain: false, force_exit: false }
        } else if id == 0 && chat_id == 0 && is_edit {
            LoopStep::Stop { outcome: RunOutcome::Reload, drain: false, force_exit: false }
        } else {
            LoopStep::Continue { handle: known }
        },
        LiveEvent::IdleTimeout => if draining {
            LoopStep::Stop { outcome: RunOutcome::Exit, drain: false, force_exit: false }
        } else {
            LoopStep::Stop { outcome: RunOutcome::Reload, drain: false, force_exit: false }
        },
        LiveEvent::ConfigChanged => LoopStep::Stop {
            outcome: RunOutcome::Reload,
            drain: true,
            force_exit: false,
        },
        LiveEvent::Interrupt => LoopStep::Stop { outcome: RunOutcome::Exit, drain: true, force_exit: true },
    }
}

/// Decides the live loop's next step, as `live_decision` states.
pub fn live_step(draining: bool, e: LiveEvent) -> (r: LoopStep)
    ensures
        r == live_decision(draining, e),
{
    match e {
        LiveEvent::UpdatesClosed | LiveEvent::IdleTimeout => if draining {
            LoopStep::Stop { outcome: RunOutcome::Exit, drain: false, force_exit: false }
        } else {
            LoopStep::Stop { outcome: RunOutcome::Reload, drain: false, force_exit: false }
        },
        LiveEvent::Update { id, chat_id, is_edit, known } => if draining {
            LoopStep::Stop { outcome: RunOutcome::Exit, drain: false, force_exit: false }
        } else if id == 0 && chat_id == 0 && is_edit {
            LoopStep::Stop { outcome: RunOutcome::Reload, drain: false, force_exit: false }
        } else {
            LoopStep::Continue { handle: known }
        },
        LiveEvent::ConfigChanged => LoopStep::Stop {
            outcome: RunOutcome::Reload,
            drain: true,
            force_exit: false,
        },
        LiveEvent::Interrupt => LoopStep::Stop { outcome: RunOutcome::Exit, drain: true, force_exit: true },
    }
}

/// What happens between two polling rounds in past mode.
#[derive(Debug, Clone, Copy, PartialEq, Eq, Structural)]
pub enum PastEvent {
    /// The client's network runner stopped before a round.
    RunnerStopped,
    /// The sends of the last round did not finish within the idle timeout.
    DispatcherBusy,
    /// The pause between rounds ended.
    PauseOver,
    /// A watched file changed.
    ConfigChanged,
    /// A send hit a network error.
    SendFailed,
    /// The channel that reports send errors closed.
    SendChannelClosed,
    /// The user asked the program to stop.
    Interrupt,
}

/// The past-mode loop's answer to an event between rounds: a stopped runner or sends
/// still busy reload at once; the pause leads to the next round; a file change or a send
/// failure reloads after draining; an interrupt exits.
pub open spec fn past_decision(e: PastEvent) -> LoopStep {
    match e {
        PastEvent::RunnerStopped | PastEvent::DispatcherBusy => LoopStep::Stop {
            outcome: RunOutcome::Reload,
            drain: false,
            force_exit: false,
        },
        PastEvent::PauseOver => LoopStep::Continue { handle: false },
        PastEvent::ConfigChanged | PastEvent::SendFailed | PastEvent::SendChannelClosed => LoopStep::Stop {
            outcome: RunOutcome::Reload,
            drain: true,
            force_exit: false,
        },
        PastEvent::Interrupt => LoopStep::Stop { outcome: RunOutcome::Exit, drain: true, force_exit: true },
    }
}

/// Decides the past-mode loop's next step between rounds, as `past_decision` states.
pub fn past_step(e: PastEvent) -> (r: LoopStep)
    ensures
        r == past_decision(e),
{
    match e {
        PastEvent::RunnerStopped | PastEvent::DispatcherBusy => LoopStep::Stop {
            outcome: RunOutcome::Reload,
            drain: false,
            force_exit: false,
        },
        PastEvent::PauseOver => LoopStep::Continue { handle: false },
        PastEvent::ConfigChanged | PastEvent::SendFailed | PastEvent::SendChannelClosed => LoopStep::Stop {
            outcome: RunOutcome::Reload,
            drain: true,
            force_exit: false,
        },
        PastEvent::Interrupt => LoopStep::Stop { outcome: RunOutcome::Exit, drain: true, force_exit: true },
    }
}

/// Whether the tasks still in flight are put back as pending at shutdown: only when a
/// past-mode run ends to reload and the dispatcher did not drain in time.
pub fn requeue_inflight(outcome: RunOutcome, drained: bool, mode: &str) -> (r: bool)
    ensures
        r == (outcome == RunOutcome::Reload && !drained && mode@ == "past"@),
{
    let reload = match outcome {
        RunOutcome::Reload => true,
        RunOutcome::Exit => false,
    };
    reload && !drained && str_eq(mode, "past")
}

/// Whether `v` holds `x`.
fn vec_has(v: &Vec<i64>, x: i64) -> (r: bool)
    ensures
        r == v@.contains(x),
{
    let mut i: usize = 0;
    while i < v.len()
        invariant
            i <= v@.len(),
            forall|j: int| 0 <= j < i ==> v@[j] != x,
        decreases v@.len() - i,
    {
        if v[i] == x {
            assert(v@[i as int] == x);
            return true;
        }
        i = i + 1;
    }
    false
}

/// `v` without the entries that `drop` holds, in order.
fn without(v: &Vec<i64>, drop: &Vec<i64>) -> (r: Vec<i64>)
    requires
        v@.no_duplicates(),
    ensures
        r@.no_duplicates(),
        r@.to_set() == v@.to_set().difference(drop@.to_set()),
{
    let mut out: Vec<i64> = Vec::new();
    let mut i: usize = 0;
    while i < v.len()
        invariant
            i <= v@.len(),
            v@.no_duplicates(),
            out@.no_duplicates(),
            forall|x: i64| out@.contains(x) <==> (exists|j: int| 0 <= j < i && v@[j] == x) && !drop@.contains(x),
        decreases v@.len() - i,
    {
        let x = v[i];
        if !vec_has(drop, x) {
            proof {
                assert(!out@.contains(x)) by {
                    if out@.contains(x) {
                        let j = choose|j: int| 0 <= j < i && v@[j] == x;
                        assert(v@[j] == v@[i as int]);
                    }
                }
            }
            let ghost before = out@;
            out.push(x);
            proof {
                assert forall|a: int, b: int| 0 <= a < b < out@.len() implies out@[a] != out@[b] by {
                    if b == before.len() {
                        assert(before.contains(out@[a]));
                    }
                }
                assert forall|y: i64| out@.contains(y) <==> (exists|j: int| 0 <= j < i + 1 && v@[j] == y)
                    && !drop@.contains(y) by {
                    if out@.contains(y) && y != x {
                        let q = choose|q: int| 0 <= q < out@.len() && out@[q] == y;
                        assert(before[q] == y);
                    }
                    if (exists|j: int| 0 <= j < i + 1 && v@[j] == y) && !drop@.contains(y) && y != x {
                        let j = choose|j: int| 0 <= j < i + 1 && v@[j] == y;
                        assert(j < i);
                        assert(before.contains(y));
                        let q = choose|q: int| 0 <= q < before.len() && before[q] == y;
                        assert(out@[q] == y);
                    }
                    if y == x {
                        assert(out@[before.len() as int] == x);
                    }
                }
            }
        }
        i = i + 1;
    }
    assert(out@.to_set() =~= v@.to_set().difference(drop@.to_set())) by {
        assert forall|x: i64| out@.to_set().contains(x) <==> v@.to_set().difference(drop@.to_set()).contains(x) by {
            if v@.contains(x) {
                let j = choose|j: int| 0 <= j < v@.len() && v@[j] == x;
            }
        }
    }
    out
}

/// The messages in flight after `id` of `source` is begun.
pub open spec fn inflight_begun(m: Map<Seq<char>, Set<i64>>, source: Seq<char>, id: i64) -> Map<Seq<char>, Set<i64>> {
    m.insert(
        source,
        if m.contains_key(source) {
            m[source].insert(id)
        } else {
            Set::empty().insert(id)
        },
    )
}

/// The messages in flight after `ids` of `source` are finished; a source left with none
/// is dropped.
pub open spec fn inflight_finished(m: Map<Seq<char>, Set<i64>>, source: Seq<char>, ids: Set<i64>) -> Map<Seq<char>, Set<i64>> {
    if m.contains_key(source) {
        let rest = m[source].difference(ids);
        if rest.is_empty() {
            m.remove(source)
        } else {
            m.insert(source, rest)
        }
    } else {
        m
    }
}

/// Finishing a message undoes beginning it, when it was not in flight before: the
/// tracker is as it was.
pub proof fn law_finish_undoes_begin(m: Map<Seq<char>, Set<i64>>, source: Seq<char>, id: i64)
    requires
        forall|k: Seq<char>| #[trigger] m.contains_key(k) ==> !m[k].is_empty(),
        !(m.contains_key(source) && m[source].contains(id)),
    ensures
        inflight_finished(inflight_begun(m, source, id), source, set![id]) == m,
{
    let b = inflight_begun(m, source, id);
    if m.contains_key(source) {
        assert(b[source].difference(set![id]) =~= m[source]);
        assert(inflight_finished(b, source, set![id]) =~= m);
    } else {
        assert(b[source].difference(set![id]) =~= Set::<i64>::empty());
        assert(inflight_finished(b, source, set![id]) =~= m);
    }
}

/// A message in flight cannot be begun again until it is finished.
pub proof fn law_begin_once(m: Map<Seq<char>, Set<i64>>, source: Seq<char>, id: i64)
    ensures
        inflight_begun(m, source, id).contains_key(source),
        inflight_begun(m, source, id)[source].contains(id),
{
}

/// The messages being sent, per source.
pub struct InflightTracker {
    entries: StrMap<Vec<i64>>,
}

impl View for InflightTracker {
    type V = Map<Seq<char>, Set<i64>>;

    closed spec fn view(&self) -> Map<Seq<char>, Set<i64>> {
        self.entries@.map_values(|v: Vec<i64>| v@.to_set())
    }
}

impl InflightTracker {
    /// No id is listed twice for a source, and no source is listed with no ids.
    pub closed spec fn wf(&self) -> bool {
        &&& self.entries.wf()
        &&& forall|k: Seq<char>| #[trigger] self.entries@.contains_key(k) ==> self.entries@[k]@.no_duplicates()
            && self.entries@[k]@.len() > 0
    }

    /// Nothing in flight.
    pub fn new() -> (r: Self)
        ensures
            r.wf(),
            r@ == Map::<Seq<char>, Set<i64>>::empty(),
    {
        let r = InflightTracker { entries: StrMap::new() };
        assert(r@ =~= Map::<Seq<char>, Set<i64>>::empty());
        r
    }

    /// Marks message `id` of `source` as being sent; false when it already was.
    pub fn try_begin(&mut self, source: &str, id: i64) -> (r: bool)
        requires
            old(self).wf(),
        ensures
            final(self).wf(),
            r == !(old(self)@.contains_key(source@) && old(self)@[source@].contains(id)),
            final(self)@ == inflight_begun(old(self)@, source@, id),
    {
        let ghost om = self.entries@;
        match self.entries.find(source) {
            Some(i) => {
                if vec_has(self.entries.val(i), id) {
                    proof {
                        assert(old(self)@[source@] == om[source@]@.to_set());
                        assert(om[source@]@.to_set().contains(id));
                        assert(old(self)@[source@].insert(id) =~= old(self)@[source@]);
                        assert(self@ =~= old(self)@.insert(source@, old(self)@[source@].insert(id)));
                    }
                    return false;
                }
                let mut v = self.entries.replace(i, Vec::new());
                let ghost ov = v@;
                v.push(id);
                self.entries.replace(i, v);
                proof {
                    assert(!ov.to_set().contains(id));
                    assert forall|y: i64| v@.to_set().contains(y) <==> ov.to_set().insert(id).contains(y) by {
                        if y == id {
                            assert(v@[ov.len() as int] == id);
                        } else if ov.contains(y) {
                            let q = choose|q: int| 0 <= q < ov.len() && ov[q] == y;
                            assert(v@[q] == y);
                        } else if v@.contains(y) {
                            let q = choose|q: int| 0 <= q < v@.len() && v@[q] == y;
                            assert(q < ov.len());
                            assert(ov[q] == y);
                        }
                    }
                    assert(v@.to_set() =~= ov.to_set().insert(id));
                    assert(self.entries@ =~= om.insert(source@, v));
                    assert forall|a: int, b: int| 0 <= a < b < v@.len() implies v@[a] != v@[b] by {
                        if b == ov.len() {
                            assert(ov.contains(v@[a]));
                        }
                    }
                    assert(self@ =~= old(self)@.insert(source@, old(self)@[source@].insert(id)));
                }
                true
            },
            None => {
                let mut v: Vec<i64> = Vec::new();
                v.push(id);
                self.entries.push(string_from_chars(str_chars(source).as_slice()), v);
                proof {
                    assert forall|y: i64| v@.to_set().contains(y) <==> Set::<i64>::empty().insert(id).contains(y) by {
                        if y == id {
                            assert(v@[0] == id);
                        }
                    }
                    assert(v@.to_set() =~= Set::<i64>::empty().insert(id));
                    assert(self@ =~= old(self)@.insert(source@, Set::<i64>::empty().insert(id)));
                }
                true
            },
        }
    }

    /// Marks the messages `ids` of `source` as no longer being sent; a source left with
    /// none is dropped.
    pub fn finish(&mut self, source: &str, ids: &Vec<i64>)
        requires
            old(self).wf(),
        ensures
            final(self).wf(),
            final(self)@ == inflight_finished(old(self)@, source@, ids@.to_set()),
    {
        let ghost om = self.entries@;
        match self.entries.find(source) {
            Some(i) => {
                let old_v = self.entries.replace(i, Vec::new());
                let rest = without(&old_v, ids);
                let ghost rs = old(self)@[source@].difference(ids@.to_set());
                assert(rest@.to_set() == rs);
                if rest.len() == 0 {
                    self.entries.remove_at(i);
                    proof {
                        assert(rest@ =~= Seq::<i64>::empty());
                        assert(rs =~= Set::<i64>::empty());
                        assert(self@ =~= old(self)@.remove(source@));
                    }
                } else {
                    self.entries.replace(i, rest);
                    proof {
                        assert(rest@.to_set().contains(rest@[0]));
                        assert(!rs.is_empty());
                        assert(self.entries@ =~= om.insert(source@, rest));
                        assert(self@ =~= old(self)@.insert(source@, rs));
                    }
                }
            },
            None => {},
        }
    }

    /// The ids of `source` being sent (none when it has none).
    pub fn ids_of(&self, source: &str) -> (r: Vec<i64>)
        requires
            self.wf(),
        ensures
            r@.to_set() == if self@.contains_key(source@) {
                self@[source@]
            } else {
                Set::empty()
            },
    {
        match self.entries.find(source) {
            Some(i) => {
                let v = self.entries.val(i);
                let mut out: Vec<i64> = Vec::new();
                let mut k: usize = 0;
                while k < v.len()
                    invariant
                        k <= v@.len(),
                        out@ == v@.take(k as int),
                    decreases v@.len() - k,
                {
                    out.push(v[k]);
                    k = k + 1;
                    assert(out@ =~= v@.take(k as int));
                }
                assert(v@.take(v@.len() as int) =~= v@);
                out
            },
            None => {
                let out: Vec<i64> = Vec::new();
                assert(out@.to_set() =~= Set::<i64>::empty());
                out
            },
        }
    }

    /// Every source with its ids in flight.
    pub fn all_entries(&self) -> (r: Vec<(String, Vec<i64>)>)
        requires
            self.wf(),
        ensures
            forall|i: int| 0 <= i < r@.len() ==> self@.contains_key((#[trigger] r@[i]).0@)
                && self@[r@[i].0@] == r@[i].1@.to_set(),
            forall|k: Seq<char>| #[trigger] self@.contains_key(k) ==> exists|i: int|
                0 <= i < r@.len() && r@[i].0@ == k,
    {
        proof {
            self.entries.lemma_view_keys();
        }
        let mut out: Vec<(String, Vec<i64>)> = Vec::new();
        let mut i: usize = 0;
        while i < self.entries.len()
            invariant
                self.wf(),
                i <= self.entries.spec_len(),
                out@.len() == i,
                forall|j: int| 0 <= j < i ==> (#[trigger] out@[j]).0@ == self.entries.key_at(j)
                    && out@[j].1@ == self.entries.val_at(j)@,
                forall|j: int| 0 <= j < self.entries.spec_len() ==> #[trigger] self.entries@[self.entries.key_at(j)]
                    == self.entries.val_at(j) && self.entries@.contains_key(self.entries.key_at(j)),
                forall|k: Seq<char>| #[trigger] self.entries@.contains_key(k) <==> exists|j: int|
                    0 <= j < self.entries.spec_len() && self.entries.key_at(j) == k,
            decreases self.entries.spec_len() - i,
        {
            let k = self.entries.key(i).clone();
            let v = self.entries.val(i);
            let mut ids: Vec<i64> = Vec::new();
            let mut q: usize = 0;
            while q < v.len()
                invariant
                    q <= v@.len(),
                    ids@ == v@.take(q as int),
                decreases v@.len() - q,
            {
                ids.push(v[q]);
                q = q + 1;
                assert(ids@ =~= v@.take(q as int));
            }
            assert(v@.take(v@.len() as int) =~= v@);
            out.push((k, ids));
            i = i + 1;
        }
        proof {
            assert forall|k: Seq<char>| #[trigger] self@.contains_key(k) implies exists|q: int|
                0 <= q < out@.len() && out@[q].0@ == k by {
                let j = choose|j: int| 0 <= j < self.entries.spec_len() && self.entries.key_at(j) == k;
                assert(out@[j].0@ == k);
            }
        }
        out
    }

    /// A source stays in the tracker only while some message of it is in flight: no
    /// source is ever kept with an empty set of ids.
    pub proof fn law_tracked_sources_nonempty(&self)
        requires
            self.wf(),
        ensures
            forall|k: Seq<char>| #[trigger] self@.contains_key(k) ==> !self@[k].is_empty(),
    {
        assert forall|k: Seq<char>| #[trigger] self@.contains_key(k) implies !self@[k].is_empty() by {
            let v = self.entries@[k]@;
            assert(v.to_set().contains(v[0]));
        }
    }

    /// Whether nothing is in flight.
    pub fn is_empty(&self) -> (r: bool)
        requires
            self.wf(),
        ensures
            r == (self@.dom().len() == 0),
    {
        proof {
            self.entries.lemma_len();
            assert(self@.dom() =~= self.entries@.dom());
        }
        self.entries.len() == 0
    }
}

/// Whether `v` holds the same ids as `ms`, each once, in increasing order.
pub open spec fn ids_ascending(v: Seq<i64>, ms: Seq<MessageSpec>) -> bool {
    &&& forall|i: int, j: int| 0 <= i < j < v.len() ==> v[i] < v[j]
    &&& forall|x: i64| v.contains(x) <==> exists|k: int| 0 <= k < ms.len() && ms[k].id == x
}

/// The ids of the messages of a task, each once, in increasing order.
pub fn task_message_ids(messages: &Vec<MessageView>) -> (r: Vec<i64>)
    ensures
        ids_ascending(r@, message_views(messages@)),
{
    let ghost ms = message_views(messages@);
    let mut out: Vec<i64> = Vec::new();
    let mut i: usize = 0;
    while i < messages.len()
        invariant
            i <= messages@.len(),
            ms == message_views(messages@),
            forall|a: int, b: int| 0 <= a < b < out@.len() ==> out@[a] < out@[b],
            forall|x: i64| out@.contains(x) <==> exists|k: int| 0 <= k < i && ms[k].id == x,
        decreases messages@.len() - i,
    {
        let x = messages[i].id;
        assert(ms[i as int].id == x);
        let mut p: usize = 0;
        while p < out.len() && out[p] < x
            invariant
                p <= out@.len(),
                forall|a: int| 0 <= a < p ==> out@[a] < x,
            decreases out@.len() - p,
        {
            p = p + 1;
        }
        let ghost before = out@;
        if p < out.len() && out[p] == x {
            assert(before.contains(x) && out@.contains(x));
        } else {
            out.insert(p, x);
            proof {
                assert forall|q: int| 0 <= q < out@.len() implies #[trigger] out@[q] == if q < p {
                    before[q]
                } else if q == p {
                    x
                } else {
                    before[q - 1]
                } by {}
                assert forall|a: int, b: int| 0 <= a < b < out@.len() implies out@[a] < out@[b] by {
                    if b < p {
                        assert(out@[a] == before[a] && out@[b] == before[b]);
                    } else if a < p && b == p {
                        assert(out@[a] == before[a]);
                    } else if a < p && b > p {
                        assert(out@[a] == before[a] && out@[b] == before[b - 1]);
                    } else if a == p {
                        assert(out@[b] == before[b - 1]);
                        assert(before[p as int] != x);
                        if b - 1 > p {
                            assert(before[p as int] < before[b - 1]);
                        }
                    } else {
                        assert(out@[a] == before[a - 1] && out@[b] == before[b - 1]);
                    }
                }
                assert forall|y: i64| out@.contains(y) <==> before.contains(y) || y == x by {
                    if out@.contains(y) {
                        let q = choose|q: int| 0 <= q < out@.len() && out@[q] == y;
                        if q < p {
                            assert(before[q] == y);
                        } else if q > p {
                            assert(before[q - 1] == y);
                        }
                    }
                    if before.contains(y) {
                        let q = choose|q: int| 0 <= q < before.len() && before[q] == y;
                        if q < p {
                            assert(out@[q] == y);
                        } else {
                            assert(out@[q + 1] == y);
                        }
                    }
                    if y == x {
                        assert(out@[p as int] == x);
                    }
                }
                assert(out@[p as int] == x);
                assert(out@.contains(x));
            }
        }
        proof {
            assert forall|y: i64| out@.contains(y) <==> exists|k: int| 0 <= k < i + 1 && ms[k].id == y by {
                if exists|k: int| 0 <= k < i + 1 && ms[k].id == y {
                    let k = choose|k: int| 0 <= k < i + 1 && ms[k].id == y;
                    if k < i {
                        assert(before.contains(y));
                    }
                }
                if out@.contains(y) && y != x {
                    assert(before.contains(y));
                }
                if y == x {
                    assert(ms[i as int].id == y);
                }
            }
        }
        i = i + 1;
    }
    out
}

} // verus!
