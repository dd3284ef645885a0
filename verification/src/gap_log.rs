//! Update-gap notices of the Telegram session: read from their log text and summed up
//! per channel, so that they can be reported together.
use crate::parse::{parse_i64, parsed_i64};
use crate::text::{char_is_whitespace, leading_ws, lemma_leading_ws, trim_start_ws};
use crate::utf16::{str_chars, string_from_range};
use vstd::prelude::*;

verus! {

/// One gap notice: the channel and the local and remote positions.
#[derive(Debug, Clone, Copy, PartialEq, Eq, Structural)]
pub struct GapLogItem {
    pub channel_id: i64,
    pub local: i64,
    pub remote: i64,
}

/// First index at or after `i` where `p` occurs in `s`.
pub open spec fn find_from(s: Seq<char>, p: Seq<char>, i: int) -> Option<int>
    decreases s.len() + 1 - i,
{
    if i < 0 || i > s.len() - p.len() {
        None
    } else if s.subrange(i, i + p.len()) == p {
        Some(i)
    } else {
        find_from(s, p, i + 1)
    }
}

/// Number of leading ASCII digits of `s`.
pub open spec fn leading_digits(s: Seq<char>) -> nat
    decreases s.len(),
{
    if s.len() > 0 && '0' <= s[0] <= '9' {
        1 + leading_digits(s.drop_first())
    } else {
        0
    }
}

/// The number written after the first `key` in `text`, past any whitespace: the run of
/// ASCII digits there, read as an `i64`.
pub open spec fn number_after(text: Seq<char>, key: Seq<char>) -> Option<i64> {
    match find_from(text, key, 0) {
        Some(i) => {
            let rest = trim_start_ws(text.skip(i + key.len()));
            let n = leading_digits(rest);
            if n == 0 {
                None
            } else {
                parsed_i64(rest.take(n as int))
            }
        },
        None => None,
    }
}

/// Index of the first `c` in `s`.
pub open spec fn first_char(s: Seq<char>, c: char) -> Option<int> {
    crate::filter::index_of_from(s, c, 0)
}

/// The text that opens a gap notice.
pub open spec fn gap_prefix() -> Seq<char> {
    "gap on update for Channel("@
}

/// A gap notice read from its text: `gap on update for Channel(<id>)`, then `local <n>`
/// and `remote <n>` somewhere after the closing bracket.
pub open spec fn gap_item(message: Seq<char>) -> Option<GapLogItem> {
    let p = gap_prefix();
    if !crate::text::has_prefix(message, p) {
        None
    } else {
        let rest = message.skip(p.len() as int);
        match first_char(rest, ')') {
            None => None,
            Some(j) => {
                let after = rest.skip(j + 1);
                match (parsed_i64(rest.take(j)), number_after(after, "local "@), number_after(after, "remote "@)) {
                    (Some(c), Some(l), Some(r)) => Some(GapLogItem { channel_id: c, local: l, remote: r }),
                    _ => None,
                }
            },
        }
    }
}

proof fn lemma_leading_digits_take(s: Seq<char>, k: int)
    requires
        0 <= k <= leading_digits(s),
    ensures
        forall|i: int| 0 <= i < k ==> '0' <= #[trigger] s[i] <= '9',
        k < s.len() && k == leading_digits(s) ==> !('0' <= s[k] <= '9'),
        leading_digits(s) <= s.len(),
    decreases s.len(),
{
    if s.len() > 0 && '0' <= s[0] <= '9' {
        if k > 0 {
            lemma_leading_digits_take(s.drop_first(), k - 1);
            assert forall|i: int| 0 <= i < k implies '0' <= #[trigger] s[i] <= '9' by {
                if i > 0 {
                    assert(s[i] == s.drop_first()[i - 1]);
                }
            }
        } else {
            lemma_leading_digits_take(s.drop_first(), 0);
        }
    }
}

proof fn lemma_find_from(s: Seq<char>, p: Seq<char>, i: int)
    requires
        i >= 0,
    ensures
        find_from(s, p, i) matches Some(k) ==> i <= k && k + p.len() <= s.len() && s.subrange(
            k,
            k + p.len(),
        ) == p,
    decreases s.len() + 1 - i,
{
    if i <= s.len() - p.len() && s.subrange(i, i + p.len()) != p {
        lemma_find_from(s, p, i + 1);
    }
}

/// Whether `p` occurs in `cs` at `i`.
fn matches_at(cs: &Vec<char>, p: &Vec<char>, i: usize) -> (b: bool)
    requires
        i + p@.len() <= cs@.len(),
    ensures
        b == (cs@.subrange(i as int, i + p@.len()) == p@),
{
    let n = cs.len();
    let mut k: usize = 0;
    while k < p.len()
        invariant
            n == cs@.len(),
            i + p@.len() <= cs@.len(),
            k <= p@.len(),
            forall|m: int| 0 <= m < k ==> cs@[i + m] == p@[m],
        decreases p@.len() - k,
    {
        if cs[i + k] != p[k] {
            assert(cs@.subrange(i as int, i + p@.len())[k as int] != p@[k as int]);
            return false;
        }
        k = k + 1;
    }
    assert(cs@.subrange(i as int, i + p@.len()) =~= p@);
    true
}

/// Where `p` first occurs in `cs`, as `find_from` states.
fn find_chars(cs: &Vec<char>, p: &Vec<char>) -> (r: Option<usize>)
    ensures
        match r {
            Some(i) => find_from(cs@, p@, 0) == Some(i as int),
            None => find_from(cs@, p@, 0) is None,
        },
{
    if p.len() > cs.len() {
        return None;
    }
    let last = cs.len() - p.len();
    let mut i: usize = 0;
    loop
        invariant
            p@.len() <= cs@.len(),
            last == cs@.len() - p@.len(),
            i <= last,
            find_from(cs@, p@, 0) == find_from(cs@, p@, i as int),
        decreases last - i,
    {
        if matches_at(cs, p, i) {
            return Some(i);
        }
        if i == last {
            assert(find_from(cs@, p@, i + 1) is None);
            return None;
        }
        i = i + 1;
    }
}

/// The number after `key` in `text`, as `number_after` states.
fn number_after_chars(text: &Vec<char>, key: &Vec<char>) -> (r: Option<i64>)
    ensures
        r == number_after(text@, key@),
{
    match find_chars(text, key) {
        None => None,
        Some(i) => {
            let tl = text.len();
            proof {
                lemma_find_from(text@, key@, 0);
            }
            let ghost after = text@.skip(i + key@.len());
            let mut s = i + key.len();
            proof {
                lemma_leading_ws(after);
                assert(after.skip(0) =~= after);
            }
            while s < text.len() && char_is_whitespace(text[s])
                invariant
                    i + key@.len() <= s <= text@.len(),
                    after == text@.skip(i + key@.len()),
                    leading_ws(after) == (s - i - key@.len()) + leading_ws(text@.skip(s as int)),
                decreases text@.len() - s,
            {
                assert(text@.skip(s as int).drop_first() =~= text@.skip(s + 1));
                s = s + 1;
            }
            let ghost rest = trim_start_ws(after);
            assert(rest =~= text@.skip(s as int));
            let mut e = s;
            proof {
                assert(rest.skip(0) =~= rest);
            }
            while e < text.len() && '0' <= text[e] && text[e] <= '9'
                invariant
                    s <= e <= text@.len(),
                    rest == text@.skip(s as int),
                    leading_digits(rest) == (e - s) + leading_digits(text@.skip(e as int)),
                decreases text@.len() - e,
            {
                assert(text@.skip(e as int).drop_first() =~= text@.skip(e + 1));
                e = e + 1;
            }
            if e == s {
                return None;
            }
            let digits = string_from_range(text.as_slice(), s, e);
            assert(digits@ =~= rest.take(leading_digits(rest) as int));
            parse_i64(digits.as_str())
        },
    }
}

/// Reads a gap notice from its log text, as `gap_item` states.
pub fn parse_gap_message(message: &str) -> (r: Option<GapLogItem>)
    ensures
        r == gap_item(message@),
{
    let cs = str_chars(message);
    let p = str_chars("gap on update for Channel(");
    if !crate::text::chars_start_with(cs.as_slice(), p.as_slice()) {
        return None;
    }
    let ghost rest = cs@.skip(p@.len() as int);
    let mut j = p.len();
    assert(crate::filter::index_of_from(rest, ')', 0) == crate::filter::index_of_from(rest, ')', (j - p@.len()) as int));
    while j < cs.len() && cs[j] != ')'
        invariant
            p@.len() <= j <= cs@.len(),
            rest == cs@.skip(p@.len() as int),
            crate::filter::index_of_from(rest, ')', 0) == crate::filter::index_of_from(rest, ')', (j - p@.len()) as int),
        decreases cs@.len() - j,
    {
        j = j + 1;
    }
    if j == cs.len() {
        return None;
    }
    let channel = string_from_range(cs.as_slice(), p.len(), j);
    assert(channel@ =~= rest.take(j - p@.len()));
    let mut after: Vec<char> = Vec::new();
    let mut k = j + 1;
    while k < cs.len()
        invariant
            j + 1 <= k <= cs@.len(),
            after@ =~= cs@.subrange(j + 1, k as int),
        decreases cs@.len() - k,
    {
        after.push(cs[k]);
        k = k + 1;
    }
    assert(after@ =~= rest.skip(j - p@.len() + 1));
    let local_key = str_chars("local ");
    let remote_key = str_chars("remote ");
    let c = parse_i64(channel.as_str());
    let l = number_after_chars(&after, &local_key);
    let r = number_after_chars(&after, &remote_key);
    match (c, l, r) {
        (Some(c), Some(l), Some(r)) => Some(GapLogItem { channel_id: c, local: l, remote: r }),
        _ => None,
    }
}

/// The gaps seen for one channel: how many, the lowest local and the highest remote
/// position.
#[derive(Debug, Clone, Copy, PartialEq, Eq, Structural)]
pub struct GapLogStat {
    pub count: usize,
    pub local_min: i64,
    pub remote_max: i64,
}

/// The statistic of a channel after one more gap.
pub open spec fn stat_after(old: Option<GapLogStat>, item: GapLogItem) -> GapLogStat {
    let s = match old {
        Some(s) => s,
        None => GapLogStat { count: 0, local_min: item.local, remote_max: item.remote },
    };
    GapLogStat {
        count: (s.count + 1) as usize,
        local_min: if item.local < s.local_min {
            item.local
        } else {
            s.local_min
        },
        remote_max: if item.remote > s.remote_max {
            item.remote
        } else {
            s.remote_max
        },
    }
}

/// Gap statistics per channel.
pub struct GapLogAggregator {
    entries: Vec<(i64, GapLogStat)>,
}

impl View for GapLogAggregator {
    type V = Map<i64, GapLogStat>;

    closed spec fn view(&self) -> Map<i64, GapLogStat> {
        Map::new(
            |c: i64| exists|i: int| 0 <= i < self.entries@.len() && self.entries@[i].0 == c,
            |c: i64|
                self.entries@[choose|i: int| 0 <= i < self.entries@.len() && self.entries@[i].0 == c].1,
        )
    }
}

impl GapLogAggregator {
    /// No channel appears twice.
    pub closed spec fn wf(&self) -> bool {
        forall|i: int, j: int|
            0 <= i < j < self.entries@.len() ==> (#[trigger] self.entries@[i]).0 != (
            #[trigger] self.entries@[j]).0
    }

    /// No statistics yet.
    pub fn new() -> (r: Self)
        ensures
            r.wf(),
            r@ == Map::<i64, GapLogStat>::empty(),
    {
        let r = GapLogAggregator { entries: Vec::new() };
        assert(r@ =~= Map::<i64, GapLogStat>::empty());
        r
    }

    proof fn lemma_entry(&self, i: int)
        requires
            self.wf(),
            0 <= i < self.entries@.len(),
        ensures
            self@.contains_key(self.entries@[i].0),
            self@[self.entries@[i].0] == self.entries@[i].1,
    {
        let c = self.entries@[i].0;
        let j = choose|j: int| 0 <= j < self.entries@.len() && self.entries@[j].0 == c;
        if j != i {
            if j < i {
                assert(self.entries@[j].0 != self.entries@[i].0);
            } else {
                assert(self.entries@[i].0 != self.entries@[j].0);
            }
        }
    }

    /// Adds one gap to its channel's statistic.
    pub fn record(&mut self, item: GapLogItem)
        requires
            old(self).wf(),
            old(self)@.contains_key(item.channel_id) ==> old(self)@[item.channel_id].count < usize::MAX,
        ensures
            final(self).wf(),
            final(self)@ == old(self)@.insert(
                item.channel_id,
                stat_after(
                    if old(self)@.contains_key(item.channel_id) {
                        Some(old(self)@[item.channel_id])
                    } else {
                        None
                    },
                    item,
                ),
            ),
    {
        let ghost old_self = *self;
        let mut i: usize = 0;
        while i < self.entries.len()
            invariant
                *self == old_self,
                old_self == *old(self),
                old_self.wf(),
                old_self@.contains_key(item.channel_id) ==> old_self@[item.channel_id].count < usize::MAX,
                i <= self.entries@.len(),
                forall|j: int| 0 <= j < i ==> self.entries@[j].0 != item.channel_id,
            decreases self.entries@.len() - i,
        {
            if self.entries[i].0 == item.channel_id {
                proof {
                    self.lemma_entry(i as int);
                }
                let (c, s) = self.entries[i];
                let ns = GapLogStat {
                    count: s.count + 1,
                    local_min: if item.local < s.local_min {
                        item.local
                    } else {
                        s.local_min
                    },
                    remote_max: if item.remote > s.remote_max {
                        item.remote
                    } else {
                        s.remote_max
                    },
                };
                self.entries.set(i, (c, ns));
                proof {
                    assert forall|a: int, b: int|
                        0 <= a < b < self.entries@.len() implies (#[trigger] self.entries@[a]).0 != (
                        #[trigger] self.entries@[b]).0 by {
                        assert(old_self.entries@[a].0 == self.entries@[a].0);
                        assert(old_self.entries@[b].0 == self.entries@[b].0);
                    }
                    let target = old_self@.insert(item.channel_id, ns);
                    assert forall|ch: i64| #[trigger] self@.contains_key(ch) <==> target.contains_key(ch) by {
                        if self@.contains_key(ch) {
                            let j = choose|j: int| 0 <= j < self.entries@.len() && self.entries@[j].0 == ch;
                            if j != i {
                                old_self.lemma_entry(j);
                            }
                        }
                        if target.contains_key(ch) && ch != item.channel_id {
                            let j = choose|j: int| 0 <= j < old_self.entries@.len() && old_self.entries@[j].0 == ch;
                            assert(self.entries@[j].0 == ch);
                            self.lemma_entry(j);
                        }
                        if ch == item.channel_id {
                            self.lemma_entry(i as int);
                        }
                    }
                    assert forall|ch: i64| #[trigger] self@.contains_key(ch) implies self@[ch] == target[ch] by {
                        let j = choose|j: int| 0 <= j < self.entries@.len() && self.entries@[j].0 == ch;
                        self.lemma_entry(j);
                        if j != i {
                            old_self.lemma_entry(j);
                        }
                    }
                    assert(self@ =~= target);
                    assert(old_self@.contains_key(item.channel_id));
                    assert(old_self@[item.channel_id] == s);
                    assert(ns == stat_after(Some(old_self@[item.channel_id]), item));
                }
                return;
            }
            i = i + 1;
        }
        let ns = GapLogStat { count: 1, local_min: item.local, remote_max: item.remote };
        self.entries.push((item.channel_id, ns));
        proof {
            let n = old_self.entries@.len() as int;
            assert forall|a: int, b: int|
                0 <= a < b < self.entries@.len() implies (#[trigger] self.entries@[a]).0 != (
                #[trigger] self.entries@[b]).0 by {
                if b < n {
                    assert(old_self.entries@[a] == self.entries@[a]);
                    assert(old_self.entries@[b] == self.entries@[b]);
                } else {
                    assert(self.entries@[a] == old_self.entries@[a]);
                }
            }
            assert(!old_self@.contains_key(item.channel_id));
            let target = old_self@.insert(item.channel_id, ns);
            assert forall|ch: i64| #[trigger] self@.contains_key(ch) <==> target.contains_key(ch) by {
                if self@.contains_key(ch) && ch != item.channel_id {
                    let j = choose|j: int| 0 <= j < self.entries@.len() && self.entries@[j].0 == ch;
                    assert(j < n);
                    assert(self.entries@[j] == old_self.entries@[j]);
                    old_self.lemma_entry(j);
                }
                if target.contains_key(ch) && ch != item.channel_id {
                    let j = choose|j: int| 0 <= j < old_self.entries@.len() && old_self.entries@[j].0 == ch;
                    assert(self.entries@[j] == old_self.entries@[j]);
                    self.lemma_entry(j);
                }
                if ch == item.channel_id {
                    self.lemma_entry(n);
                }
            }
            assert forall|ch: i64| #[trigger] self@.contains_key(ch) implies self@[ch] == target[ch] by {
                let j = choose|j: int| 0 <= j < self.entries@.len() && self.entries@[j].0 == ch;
                self.lemma_entry(j);
                if j < n {
                    assert(self.entries@[j] == old_self.entries@[j]);
                    old_self.lemma_entry(j);
                }
            }
            assert(self@ =~= target);
        }
    }

    /// Takes out every channel's statistic, leaving none.
    pub fn drain(&mut self) -> (r: Vec<(i64, GapLogStat)>)
        requires
            old(self).wf(),
        ensures
            final(self).wf(),
            final(self)@ == Map::<i64, GapLogStat>::empty(),
            forall|i: int, j: int| 0 <= i < j < r@.len() ==> (#[trigger] r@[i]).0 != (#[trigger] r@[j]).0,
            forall|i: int| 0 <= i < r@.len() ==> old(self)@.contains_key((#[trigger] r@[i]).0)
                && old(self)@[r@[i].0] == r@[i].1,
            forall|c: i64| #[trigger] old(self)@.contains_key(c) ==> exists|i: int|
                0 <= i < r@.len() && r@[i].0 == c,
    {
        let mut out: Vec<(i64, GapLogStat)> = Vec::new();
        std::mem::swap(&mut out, &mut self.entries);
        proof {
            assert(self@ =~= Map::<i64, GapLogStat>::empty());
            assert forall|i: int| 0 <= i < out@.len() implies old(self)@.contains_key((#[trigger] out@[i]).0)
                && old(self)@[out@[i].0] == out@[i].1 by {
                old(self).lemma_entry(i);
            }
        }
        out
    }
}

} // verus!
