//! Keyword filtering: a whitelist that a forwarded text must hit (when it has entries)
//! and a blacklist that it must not, both read from a small text format.
use crate::text::{
    chars_contain, contains_sub, has_prefix, lowercase, str_to_lowercase, trim_bounds, trim_ws,
};
use crate::utf16::{
    chars_before_byte, char_utf8_len, lemma_take_le, lemma_take_next, str_chars,
    string_from_chars, string_from_range, utf8_units,
};
use vstd::prelude::*;

verus! {

/// The fields of `s` separated by `c` (one empty field for an empty text).
pub open spec fn split_on(s: Seq<char>, c: char) -> Seq<Seq<char>>
    decreases s.len(),
{
    if s.len() == 0 {
        seq![Seq::empty()]
    } else {
        let prev = split_on(s.drop_last(), c);
        if s.last() == c {
            prev.push(Seq::empty())
        } else {
            prev.update(prev.len() - 1, prev.last().push(s.last()))
        }
    }
}

/// The trimmed pieces that are not empty.
pub open spec fn nonempty_trimmed(pieces: Seq<Seq<char>>) -> Seq<Seq<char>>
    decreases pieces.len(),
{
    if pieces.len() == 0 {
        pieces
    } else {
        let prev = nonempty_trimmed(pieces.drop_last());
        let t = trim_ws(pieces.last());
        if t.len() > 0 {
            prev.push(t)
        } else {
            prev
        }
    }
}

/// The keywords of a comma-separated list: each trimmed, empty ones dropped.
pub open spec fn keywords_of(raw: Seq<char>) -> Seq<Seq<char>> {
    nonempty_trimmed(split_on(raw, ','))
}

/// A line as `str::lines` yields it: its `\n` and a `\r` before it removed.
pub open spec fn strip_line_end(piece: Seq<char>) -> Seq<char> {
    if piece.len() > 0 && piece.last() == '\n' {
        let p = piece.drop_last();
        if p.len() > 0 && p.last() == '\r' {
            p.drop_last()
        } else {
            p
        }
    } else {
        piece
    }
}

/// Index of the first `c` in `s` at or after `i`.
pub open spec fn index_of_from(s: Seq<char>, c: char, i: int) -> Option<int>
    decreases s.len() - i,
{
    if i < 0 || i >= s.len() {
        None
    } else if s[i] == c {
        Some(i)
    } else {
        index_of_from(s, c, i + 1)
    }
}

/// The lines of a text, as `str::lines` yields them.
pub open spec fn lines_of(s: Seq<char>) -> Seq<Seq<char>>
    decreases s.len(),
{
    if s.len() == 0 {
        Seq::empty()
    } else {
        match index_of_from(s, '\n', 0) {
            Some(i) => if 0 <= i < s.len() {
                seq![strip_line_end(s.take(i + 1))] + lines_of(s.skip(i + 1))
            } else {
                seq![s]
            },
            None => seq![s],
        }
    }
}

/// `t` from byte offset `b` on.
pub open spec fn byte_suffix(t: Seq<char>, b: int) -> Seq<char> {
    t.skip(chars_before_byte(t, b) as int)
}

/// Whether byte offset `b` falls on a char boundary of `t`.
pub open spec fn on_boundary(t: Seq<char>, b: int) -> bool {
    exists|k: int| 0 <= k <= t.len() && #[trigger] utf8_units(t.take(k)) == b
}

/// Whether a line can be read: after `whitelist=` or `blacklist=` (any case) the text is
/// taken from byte 10, which must be a char boundary.
pub open spec fn line_readable(line: Seq<char>) -> bool {
    let t = trim_ws(line);
    let lower = lowercase(t);
    (t.len() == 0 || t[0] == '#') || ((has_prefix(lower, "whitelist="@) ==> on_boundary(t, 10))
        && (has_prefix(lower, "blacklist="@) ==> on_boundary(t, 10)))
}

/// The whitelist, blacklist and current section (blacklist when true) after a line.
pub open spec fn after_line(
    state: (Seq<Seq<char>>, Seq<Seq<char>>, bool),
    line: Seq<char>,
) -> (Seq<Seq<char>>, Seq<Seq<char>>, bool) {
    let (w, b, black) = state;
    let t = trim_ws(line);
    let lower = lowercase(t);
    if t.len() == 0 || t[0] == '#' {
        state
    } else if lower == "[whitelist]"@ || lower == "[white]"@ {
        (w, b, false)
    } else if lower == "[blacklist]"@ || lower == "[black]"@ {
        (w, b, true)
    } else if has_prefix(lower, "whitelist="@) {
        (w + keywords_of(byte_suffix(t, 10)), b, black)
    } else if has_prefix(lower, "blacklist="@) {
        (w, b + keywords_of(byte_suffix(t, 10)), black)
    } else if black {
        (w, b + keywords_of(t), black)
    } else {
        (w + keywords_of(t), b, black)
    }
}

/// The lists after every line, starting in the whitelist section.
pub open spec fn after_lines(lines: Seq<Seq<char>>) -> (Seq<Seq<char>>, Seq<Seq<char>>, bool)
    decreases lines.len(),
{
    if lines.len() == 0 {
        (Seq::empty(), Seq::empty(), false)
    } else {
        after_line(after_lines(lines.drop_last()), lines.last())
    }
}

/// Each keyword lowercased.
pub open spec fn lowercased_all(ks: Seq<Seq<char>>) -> Seq<Seq<char>> {
    ks.map_values(|k: Seq<char>| lowercase(k))
}

/// The keyword filter as a mathematical value.
pub struct FilterSpec {
    pub whitelist: Seq<Seq<char>>,
    pub blacklist: Seq<Seq<char>>,
    pub normalized_whitelist: Seq<Seq<char>>,
    pub normalized_blacklist: Seq<Seq<char>>,
    pub case_sensitive: bool,
}

/// Keyword lists and how they are matched.
pub struct KeywordFilter {
    whitelist: Vec<String>,
    blacklist: Vec<String>,
    normalized_whitelist: Vec<String>,
    normalized_blacklist: Vec<String>,
    case_sensitive: bool,
}

impl View for KeywordFilter {
    type V = FilterSpec;

    closed spec fn view(&self) -> FilterSpec {
        FilterSpec {
            whitelist: crate::table::str_views(self.whitelist@),
            blacklist: crate::table::str_views(self.blacklist@),
            normalized_whitelist: crate::table::str_views(self.normalized_whitelist@),
            normalized_blacklist: crate::table::str_views(self.normalized_blacklist@),
            case_sensitive: self.case_sensitive,
        }
    }
}

/// The text that keywords are matched against.
pub open spec fn normalized_text(f: FilterSpec, text: Seq<char>) -> Seq<char> {
    if f.case_sensitive {
        text
    } else {
        lowercase(text)
    }
}

/// Index of the first blacklisted keyword that occurs in `t`, from index `i` on.
pub open spec fn first_blacklisted(ks: Seq<Seq<char>>, t: Seq<char>, i: int) -> Option<int>
    decreases ks.len() - i,
{
    if i < 0 || i >= ks.len() {
        None
    } else if contains_sub(t, ks[i]) {
        Some(i)
    } else {
        first_blacklisted(ks, t, i + 1)
    }
}

/// The verdict on a text, as `verdict_on` gives it for the text normalized.
pub open spec fn verdict(f: FilterSpec, text: Seq<char>) -> (bool, Option<Seq<char>>) {
    verdict_on(f, normalized_text(f, text))
}

/// The verdict on a normalized text `t` and, when it is refused, why: no whitelisted
/// keyword when the whitelist has entries, or the first blacklisted keyword that occurs.
pub open spec fn verdict_on(f: FilterSpec, t: Seq<char>) -> (bool, Option<Seq<char>>) {
    if f.normalized_whitelist.len() > 0 && !(exists|i: int|
        0 <= i < f.normalized_whitelist.len() && contains_sub(t, #[trigger] f.normalized_whitelist[i]))
    {
        (false, Some("未匹配白名单"@))
    } else {
        match first_blacklisted(f.normalized_blacklist, t, 0) {
            Some(i) => (false, Some("匹配黑名单: "@ + f.normalized_blacklist[i])),
            None => (true, None),
        }
    }
}

/// A text in which a blacklisted keyword occurs is never forwarded, whatever the
/// whitelist holds.
pub proof fn law_blacklisted_never_forwarded(f: FilterSpec, text: Seq<char>, i: int)
    requires
        0 <= i < f.normalized_blacklist.len(),
        contains_sub(normalized_text(f, text), f.normalized_blacklist[i]),
    ensures
        !verdict(f, text).0,
{
    lemma_first_blacklisted_found(f.normalized_blacklist, normalized_text(f, text), 0, i);
}

proof fn lemma_first_blacklisted_found(ks: Seq<Seq<char>>, t: Seq<char>, from: int, i: int)
    requires
        0 <= from <= i < ks.len(),
        contains_sub(t, ks[i]),
    ensures
        first_blacklisted(ks, t, from) is Some,
    decreases i - from,
{
    if !contains_sub(t, ks[from]) {
        lemma_first_blacklisted_found(ks, t, from + 1, i);
    }
}

/// With no keyword in either list, every text is forwarded.
pub proof fn law_empty_lists_forward_all(f: FilterSpec, text: Seq<char>)
    requires
        f.normalized_whitelist.len() == 0,
        f.normalized_blacklist.len() == 0,
    ensures
        verdict(f, text) == (true, Option::<Seq<char>>::None),
{
}

/// `cs[a..b]` trimmed, as a string, when not empty.
fn push_trimmed(cs: &Vec<char>, a: usize, b: usize, out: &mut Vec<String>)
    requires
        a <= b <= cs@.len(),
    ensures
        ({
            let t = trim_ws(cs@.subrange(a as int, b as int));
            if t.len() > 0 {
                crate::table::str_views(final(out)@) == crate::table::str_views(old(out)@).push(t)
            } else {
                final(out)@ == old(out)@
            }
        }),
{
    let piece = string_from_range(cs.as_slice(), a, b);
    let pc = str_chars(piece.as_str());
    let (s, e) = trim_bounds(pc.as_slice());
    if s < e {
        let t = string_from_range(pc.as_slice(), s, e);
        let ghost before = out@;
        out.push(t);
        assert(crate::table::str_views(out@) =~= crate::table::str_views(before).push(
            trim_ws(cs@.subrange(a as int, b as int)),
        ));
    }
}

/// `split_on` of a prefix extended by one char.
proof fn lemma_split_step(s: Seq<char>, c: char, i: int)
    requires
        0 <= i < s.len(),
    ensures
        split_on(s.take(i + 1), c) == ({
            let prev = split_on(s.take(i), c);
            if s[i] == c {
                prev.push(Seq::empty())
            } else {
                prev.update(prev.len() - 1, prev.last().push(s[i]))
            }
        }),
{
    assert(s.take(i + 1).drop_last() =~= s.take(i));
}

/// `split_on` has at least one field.
proof fn lemma_split_nonempty(s: Seq<char>, c: char)
    ensures
        split_on(s, c).len() >= 1,
    decreases s.len(),
{
    if s.len() > 0 {
        lemma_split_nonempty(s.drop_last(), c);
    }
}

impl KeywordFilter {
    /// The keywords of a comma-separated list, as `keywords_of` states.
    pub fn parse_keywords(raw: &str) -> (r: Vec<String>)
        ensures
            crate::table::str_views(r@) == keywords_of(raw@),
    {
        let cs = str_chars(raw);
        let mut out: Vec<String> = Vec::new();
        let mut start: usize = 0;
        let mut i: usize = 0;
        let ghost mut done: Seq<Seq<char>> = Seq::empty();
        assert(cs@.take(0) =~= Seq::<char>::empty());
        assert(split_on(cs@.take(0), ',') =~= seq![Seq::<char>::empty()]);
        while i < cs.len()
            invariant
                start <= i <= cs@.len(),
                cs@ == raw@,
                split_on(cs@.take(i as int), ',') == done.push(cs@.subrange(start as int, i as int)),
                crate::table::str_views(out@) == nonempty_trimmed(done),
            decreases cs@.len() - i,
        {
            proof {
                lemma_split_step(cs@, ',', i as int);
            }
            if cs[i] == ',' {
                push_trimmed(&cs, start, i, &mut out);
                proof {
                    let piece = cs@.subrange(start as int, i as int);
                    assert(done.push(piece).drop_last() =~= done);
                    done = done.push(piece);
                    assert(cs@.subrange(i + 1, i + 1) =~= Seq::<char>::empty());
                }
                start = i + 1;
            } else {
                proof {
                    assert(cs@.subrange(start as int, i + 1) =~= cs@.subrange(start as int, i as int).push(
                        cs@[i as int],
                    ));
                    assert(done.push(cs@.subrange(start as int, i as int)).update(
                        done.len() as int,
                        cs@.subrange(start as int, i + 1),
                    ) =~= done.push(cs@.subrange(start as int, i + 1)));
                }
            }
            i = i + 1;
        }
        push_trimmed(&cs, start, i, &mut out);
        proof {
            let piece = cs@.subrange(start as int, i as int);
            assert(cs@.take(i as int) =~= cs@);
            assert(done.push(piece).drop_last() =~= done);
        }
        out
    }

    /// Empty lists; keywords are matched ignoring case unless `case_sensitive`.
    pub fn new(case_sensitive: bool) -> (r: Self)
        ensures
            r@ == (FilterSpec {
                whitelist: Seq::empty(),
                blacklist: Seq::empty(),
                normalized_whitelist: Seq::empty(),
                normalized_blacklist: Seq::empty(),
                case_sensitive,
            }),
    {
        let r = KeywordFilter {
            whitelist: Vec::new(),
            blacklist: Vec::new(),
            normalized_whitelist: Vec::new(),
            normalized_blacklist: Vec::new(),
            case_sensitive,
        };
        assert(r@.whitelist =~= Seq::<Seq<char>>::empty());
        assert(r@.blacklist =~= Seq::<Seq<char>>::empty());
        assert(r@.normalized_whitelist =~= Seq::<Seq<char>>::empty());
        assert(r@.normalized_blacklist =~= Seq::<Seq<char>>::empty());
        r
    }

    /// Empties both lists, as when the keyword file is missing.
    pub fn clear(&mut self)
        ensures
            final(self)@ == (FilterSpec {
                whitelist: Seq::empty(),
                blacklist: Seq::empty(),
                normalized_whitelist: Seq::empty(),
                normalized_blacklist: Seq::empty(),
                case_sensitive: old(self)@.case_sensitive,
            }),
    {
        self.whitelist.clear();
        self.blacklist.clear();
        self.normalized_whitelist.clear();
        self.normalized_blacklist.clear();
        assert(self@.whitelist =~= Seq::<Seq<char>>::empty());
        assert(self@.blacklist =~= Seq::<Seq<char>>::empty());
        assert(self@.normalized_whitelist =~= Seq::<Seq<char>>::empty());
        assert(self@.normalized_blacklist =~= Seq::<Seq<char>>::empty());
    }

    /// Whether `text` passes the filter, with the reason when it does not, as `verdict`
    /// states.
    pub fn should_forward(&self, text: &str) -> (r: (bool, Option<String>))
        ensures
            r.0 == verdict(self@, text@).0,
            crate::model::opt_str(r.1) == verdict(self@, text@).1,
    {
        let normalized = if self.case_sensitive {
            str_chars(text)
        } else {
            let l = str_to_lowercase(text);
            str_chars(l.as_str())
        };
        let ghost t = normalized_text(self@, text@);
        assert(normalized@ == t);
        self.verdict_chars(&normalized)
    }

    /// The verdict on a text that is already normalized (lowercased unless the filter is
    /// case-sensitive), as `verdict_on` states.
    pub fn forward_verdict(&self, normalized: &str) -> (r: (bool, Option<String>))
        ensures
            r.0 == verdict_on(self@, normalized@).0,
            crate::model::opt_str(r.1) == verdict_on(self@, normalized@).1,
    {
        let cs = str_chars(normalized);
        self.verdict_chars(&cs)
    }

    /// The verdict on the chars of a normalized text.
    fn verdict_chars(&self, normalized: &Vec<char>) -> (r: (bool, Option<String>))
        ensures
            r.0 == verdict_on(self@, normalized@).0,
            crate::model::opt_str(r.1) == verdict_on(self@, normalized@).1,
    {
        let ghost t = normalized@;
        if self.normalized_whitelist.len() > 0 {
            if !any_contained(&normalized, &self.normalized_whitelist) {
                let msg = str_chars("未匹配白名单");
                return (false, Some(string_from_chars(msg.as_slice())));
            }
        }
        match first_contained(&normalized, &self.normalized_blacklist) {
            Some(i) => {
                let kw = str_chars(self.normalized_blacklist[i].as_str());
                let mut msg = str_chars("匹配黑名单: ");
                let mut k: usize = 0;
                let ghost head = msg@;
                while k < kw.len()
                    invariant
                        k <= kw@.len(),
                        msg@ =~= head + kw@.take(k as int),
                    decreases kw@.len() - k,
                {
                    msg.push(kw[k]);
                    k = k + 1;
                }
                assert(kw@.take(k as int) =~= kw@);
                (false, Some(string_from_chars(msg.as_slice())))
            },
            None => (true, None),
        }
    }
}

/// Whether some keyword of `ks` occurs in `t`.
fn any_contained(t: &Vec<char>, ks: &Vec<String>) -> (r: bool)
    ensures
        r == exists|i: int|
            0 <= i < ks@.len() && contains_sub(t@, #[trigger] crate::table::str_views(ks@)[i]),
{
    let mut i: usize = 0;
    while i < ks.len()
        invariant
            i <= ks@.len(),
            forall|j: int|
                0 <= j < i ==> !contains_sub(t@, #[trigger] crate::table::str_views(ks@)[j]),
        decreases ks@.len() - i,
    {
        let kw = str_chars(ks[i].as_str());
        assert(kw@ == crate::table::str_views(ks@)[i as int]);
        if chars_contain(t.as_slice(), kw.as_slice()) {
            return true;
        }
        i = i + 1;
    }
    false
}

/// Index of the first keyword of `ks` that occurs in `t`.
fn first_contained(t: &Vec<char>, ks: &Vec<String>) -> (r: Option<usize>)
    ensures
        match r {
            Some(i) => first_blacklisted(crate::table::str_views(ks@), t@, 0) == Some(i as int)
                && i < ks@.len(),
            None => first_blacklisted(crate::table::str_views(ks@), t@, 0) is None,
        },
{
    let ghost v = crate::table::str_views(ks@);
    let mut i: usize = 0;
    while i < ks.len()
        invariant
            i <= ks@.len(),
            v == crate::table::str_views(ks@),
            first_blacklisted(v, t@, 0) == first_blacklisted(v, t@, i as int),
        decreases ks@.len() - i,
    {
        let kw = str_chars(ks[i].as_str());
        assert(kw@ == v[i as int]);
        if chars_contain(t.as_slice(), kw.as_slice()) {
            return Some(i);
        }
        i = i + 1;
    }
    None
}

/// Whether two char lists are equal.
fn chars_eq(a: &Vec<char>, b: &Vec<char>) -> (r: bool)
    ensures
        r == (a@ == b@),
{
    if a.len() != b.len() {
        return false;
    }
    let r = crate::text::chars_start_with(a.as_slice(), b.as_slice());
    proof {
        assert(a@.take(b@.len() as int) =~= a@);
    }
    r
}

/// The lines of `cs`, as `lines_of` states.
pub(crate) fn split_lines(cs: &Vec<char>) -> (r: Vec<Vec<char>>)
    ensures
        r@.map_values(|l: Vec<char>| l@) == lines_of(cs@),
{
    let mut out: Vec<Vec<char>> = Vec::new();
    let mut start: usize = 0;
    let n = cs.len();
    assert(cs@.skip(0) =~= cs@);
    while start < n
        invariant
            n == cs@.len(),
            start <= n,
            out@.map_values(|l: Vec<char>| l@) + lines_of(cs@.skip(start as int)) == lines_of(cs@),
        decreases n - start,
    {
        let ghost rest = cs@.skip(start as int);
        let mut j = start;
        while j < n && cs[j] != '\n'
            invariant
                start <= j <= n == cs@.len(),
                rest == cs@.skip(start as int),
                index_of_from(rest, '\n', 0) == index_of_from(rest, '\n', j - start),
            decreases n - j,
        {
            j = j + 1;
        }
        let ghost before = out@.map_values(|l: Vec<char>| l@);
        if j < n {
            assert(index_of_from(rest, '\n', 0) == Some(j - start));
            let mut line: Vec<char> = Vec::new();
            let mut k = start;
            let mut end = j;
            if end > start && cs[end - 1] == '\r' {
                end = end - 1;
            }
            while k < end
                invariant
                    start <= k <= end <= j < n == cs@.len(),
                    line@ =~= cs@.subrange(start as int, k as int),
                decreases end - k,
            {
                line.push(cs[k]);
                k = k + 1;
            }
            proof {
                let piece = rest.take(j - start + 1);
                assert(piece.drop_last() =~= cs@.subrange(start as int, j as int));
                assert(strip_line_end(piece) =~= line@);
                assert(rest.skip(j - start + 1) =~= cs@.skip(j + 1));
            }
            out.push(line);
            assert(out@.map_values(|l: Vec<char>| l@) =~= before.push(
                strip_line_end(rest.take(j - start + 1)),
            ));
            start = j + 1;
        } else {
            assert(index_of_from(rest, '\n', 0) is None);
            let mut line: Vec<char> = Vec::new();
            let mut k = start;
            while k < n
                invariant
                    start <= k <= n == cs@.len(),
                    line@ =~= cs@.subrange(start as int, k as int),
                decreases n - k,
            {
                line.push(cs[k]);
                k = k + 1;
            }
            assert(line@ =~= rest);
            out.push(line);
            assert(out@.map_values(|l: Vec<char>| l@) =~= before.push(rest));
            assert(cs@.skip(n as int) =~= Seq::<char>::empty());
            start = n;
        }
    }
    assert(cs@.skip(start as int) =~= Seq::<char>::empty());
    assert(lines_of(Seq::<char>::empty()) =~= Seq::<Seq<char>>::empty());
    out
}

/// Whether byte `b` is a char boundary of `cs`.
fn boundary_at(cs: &Vec<char>, b: usize) -> (r: bool)
    requires
        utf8_units(cs@) <= isize::MAX,
    ensures
        r == on_boundary(cs@, b as int),
{
    let mut byte: usize = 0;
    let mut i: usize = 0;
    while i < cs.len() && byte < b
        invariant
            i <= cs@.len(),
            byte == utf8_units(cs@.take(i as int)),
            utf8_units(cs@) <= isize::MAX,
            forall|k: int| 0 <= k < i ==> #[trigger] utf8_units(cs@.take(k)) < b,
        decreases cs@.len() - i,
    {
        proof {
            lemma_take_next(cs@, i as int);
            lemma_take_le(cs@, i + 1);
        }
        byte = byte + char_utf8_len(cs[i]);
        i = i + 1;
    }
    if byte == b {
        return true;
    }
    proof {
        assert forall|k: int| 0 <= k <= cs@.len() implies #[trigger] utf8_units(cs@.take(k)) != b by {
            if k > i {
                crate::utf16::lemma_take_le(cs@.take(k), i as int);
                assert(cs@.take(k).take(i as int) =~= cs@.take(i as int));
                lemma_utf8_prefix_mono(cs@, i as int, k);
            }
        }
    }
    false
}

/// A longer prefix has at least as many UTF-8 bytes, strictly more when longer.
proof fn lemma_utf8_prefix_mono(s: Seq<char>, i: int, k: int)
    requires
        0 <= i < k <= s.len(),
    ensures
        utf8_units(s.take(i)) < utf8_units(s.take(k)),
    decreases k - i,
{
    lemma_take_next(s, k - 1);
    assert(crate::utf16::utf8_width(s[k - 1]) >= 1);
    if i < k - 1 {
        lemma_utf8_prefix_mono(s, i, k - 1);
    }
}

/// The trimmed chars of `line`.
pub(crate) fn trimmed(line: &Vec<char>) -> (r: Vec<char>)
    ensures
        r@ == trim_ws(line@),
{
    let (a, b) = trim_bounds(line.as_slice());
    let mut t: Vec<char> = Vec::new();
    let mut k = a;
    while k < b
        invariant
            a <= k <= b <= line@.len(),
            t@ =~= line@.subrange(a as int, k as int),
        decreases b - k,
    {
        t.push(line[k]);
        k = k + 1;
    }
    t
}

/// Whether every line of `content` can be read: see `line_readable`.
pub fn keyword_text_readable(content: &str) -> (r: bool)
    ensures
        r == forall|i: int|
            0 <= i < lines_of(content@).len() ==> line_readable(#[trigger] lines_of(content@)[i]),
{
    let cs = str_chars(content);
    let lines = split_lines(&cs);
    let ghost ls = lines_of(content@);
    assert(lines@.map_values(|l: Vec<char>| l@) == ls);
    let mut i: usize = 0;
    while i < lines.len()
        invariant
            i <= lines@.len(),
            ls == lines_of(content@),
            ls == lines@.map_values(|l: Vec<char>| l@),
            forall|k: int| 0 <= k < i ==> line_readable(#[trigger] ls[k]),
        decreases lines@.len() - i,
    {
        assert(ls[i as int] == lines@[i as int]@);
        let t = trimmed(&lines[i]);
        if t.len() > 0 && t[0] != '#' {
            let ts = string_from_chars(t.as_slice());
            let tc = str_chars(ts.as_str());
            let lower_s = str_to_lowercase(ts.as_str());
            let lower = str_chars(lower_s.as_str());
            let w = str_chars("whitelist=");
            let b = str_chars("blacklist=");
            assert(tc@ == trim_ws(ls[i as int]));
            if crate::text::chars_start_with(lower.as_slice(), w.as_slice()) && !boundary_at(&tc, 10) {
                assert(!line_readable(ls[i as int]));
                return false;
            }
            if crate::text::chars_start_with(lower.as_slice(), b.as_slice()) && !boundary_at(&tc, 10) {
                assert(!line_readable(ls[i as int]));
                return false;
            }
        }
        i = i + 1;
    }
    true
}

impl KeywordFilter {
    /// Reads the keyword lists from the text of a keyword file when every line can be
    /// read, as `load_from_str` states, and returns true; otherwise leaves the filter as
    /// it was and returns false.
    pub fn load_checked(&mut self, content: &str) -> (r: bool)
        ensures
            r == forall|i: int|
                0 <= i < lines_of(content@).len() ==> line_readable(
                    #[trigger] lines_of(content@)[i],
                ),
            !r ==> final(self)@ == old(self)@,
            r ==> ({
                let (w, b, _) = after_lines(lines_of(content@));
                final(self)@ == (FilterSpec {
                    whitelist: w,
                    blacklist: b,
                    normalized_whitelist: if old(self)@.case_sensitive {
                        w
                    } else {
                        lowercased_all(w)
                    },
                    normalized_blacklist: if old(self)@.case_sensitive {
                        b
                    } else {
                        lowercased_all(b)
                    },
                    case_sensitive: old(self)@.case_sensitive,
                })
            }),
    {
        if keyword_text_readable(content) {
            self.load_from_str(content);
            true
        } else {
            false
        }
    }

    /// Reads the keyword lists from the text of a keyword file, as `after_lines` states:
    /// `#` comments and blank lines are skipped; `[whitelist]`/`[white]` and
    /// `[blacklist]`/`[black]` switch sections; `whitelist=` and `blacklist=` lines add
    /// to their list whatever the section; other lines add to the current section.
    pub fn load_from_str(&mut self, content: &str)
        requires
            forall|i: int|
                0 <= i < lines_of(content@).len() ==> line_readable(#[trigger] lines_of(content@)[i]),
        ensures
            ({
                let (w, b, _) = after_lines(lines_of(content@));
                final(self)@ == (FilterSpec {
                    whitelist: w,
                    blacklist: b,
                    normalized_whitelist: if old(self)@.case_sensitive {
                        w
                    } else {
                        lowercased_all(w)
                    },
                    normalized_blacklist: if old(self)@.case_sensitive {
                        b
                    } else {
                        lowercased_all(b)
                    },
                    case_sensitive: old(self)@.case_sensitive,
                })
            }),
    {
        let cs = str_chars(content);
        let lines = split_lines(&cs);
        let ghost ls = lines_of(content@);
        let mut white: Vec<String> = Vec::new();
        let mut black_list: Vec<String> = Vec::new();
        let mut black = false;
        let mut i: usize = 0;
        assert(ls.take(0) =~= Seq::<Seq<char>>::empty());
        while i < lines.len()
            invariant
                i <= lines@.len(),
                ls == lines@.map_values(|l: Vec<char>| l@),
                forall|k: int| 0 <= k < ls.len() ==> line_readable(#[trigger] ls[k]),
                after_lines(ls.take(i as int)) == (
                    crate::table::str_views(white@),
                    crate::table::str_views(black_list@),
                    black,
                ),
            decreases lines@.len() - i,
        {
            let ghost line = ls[i as int];
            assert(line == lines@[i as int]@);
            assert(ls.take(i + 1).drop_last() =~= ls.take(i as int));
            assert(line_readable(line));
            let ghost wv = crate::table::str_views(white@);
            let ghost bv = crate::table::str_views(black_list@);
            let t = trimmed(&lines[i]);
            if t.len() > 0 && t[0] != '#' {
                let ts = string_from_chars(t.as_slice());
                let tc = str_chars(ts.as_str());
                let lower_s = str_to_lowercase(ts.as_str());
                let lower = str_chars(lower_s.as_str());
                let is_white_section = chars_eq(&lower, &str_chars("[whitelist]")) || chars_eq(
                    &lower,
                    &str_chars("[white]"),
                );
                let is_black_section = chars_eq(&lower, &str_chars("[blacklist]")) || chars_eq(
                    &lower,
                    &str_chars("[black]"),
                );
                if is_white_section {
                    black = false;
                } else if is_black_section {
                    black = true;
                } else if crate::text::chars_start_with(lower.as_slice(), str_chars("whitelist=").as_slice()) {
                    let k = crate::replace::char_index_at_byte(&tc, 10);
                    let rest = string_from_range(tc.as_slice(), k, tc.len());
                    assert(rest@ == byte_suffix(tc@, 10));
                    let kws = KeywordFilter::parse_keywords(rest.as_str());
                    append_strings(&mut white, kws);
                } else if crate::text::chars_start_with(lower.as_slice(), str_chars("blacklist=").as_slice()) {
                    let k = crate::replace::char_index_at_byte(&tc, 10);
                    let rest = string_from_range(tc.as_slice(), k, tc.len());
                    assert(rest@ == byte_suffix(tc@, 10));
                    let kws = KeywordFilter::parse_keywords(rest.as_str());
                    append_strings(&mut black_list, kws);
                } else {
                    let kws = KeywordFilter::parse_keywords(ts.as_str());
                    if black {
                        append_strings(&mut black_list, kws);
                    } else {
                        append_strings(&mut white, kws);
                    }
                }
            }
            i = i + 1;
        }
        assert(ls.take(i as int) =~= ls);
        let case_sensitive = self.case_sensitive;
        self.normalized_whitelist = normalized_list(&white, case_sensitive);
        self.normalized_blacklist = normalized_list(&black_list, case_sensitive);
        self.whitelist = white;
        self.blacklist = black_list;
    }
}

/// Appends the strings of `more` to `v`.
fn append_strings(v: &mut Vec<String>, more: Vec<String>)
    ensures
        crate::table::str_views(final(v)@) == crate::table::str_views(old(v)@)
            + crate::table::str_views(more@),
{
    let mut i: usize = 0;
    while i < more.len()
        invariant
            i <= more@.len(),
            crate::table::str_views(v@) =~= crate::table::str_views(old(v)@)
                + crate::table::str_views(more@).take(i as int),
        decreases more@.len() - i,
    {
        let ghost before = v@;
        v.push(more[i].clone());
        assert(crate::table::str_views(v@) =~= crate::table::str_views(before).push(more@[i as int]@));
        i = i + 1;
    }
    assert(crate::table::str_views(more@).take(i as int) =~= crate::table::str_views(more@));
}

/// The keywords as matched: themselves, or lowercased when matching ignores case.
fn normalized_list(v: &Vec<String>, case_sensitive: bool) -> (r: Vec<String>)
    ensures
        crate::table::str_views(r@) == if case_sensitive {
            crate::table::str_views(v@)
        } else {
            lowercased_all(crate::table::str_views(v@))
        },
{
    let mut out: Vec<String> = Vec::new();
    let mut i: usize = 0;
    while i < v.len()
        invariant
            i <= v@.len(),
            crate::table::str_views(out@) =~= (if case_sensitive {
                crate::table::str_views(v@)
            } else {
                lowercased_all(crate::table::str_views(v@))
            }).take(i as int),
        decreases v@.len() - i,
    {
        let ghost before = out@;
        if case_sensitive {
            out.push(v[i].clone());
            assert(crate::table::str_views(out@) =~= crate::table::str_views(before).push(v@[i as int]@));
        } else {
            out.push(str_to_lowercase(v[i].as_str()));
            assert(crate::table::str_views(out@) =~= crate::table::str_views(before).push(
                lowercase(v@[i as int]@),
            ));
        }
        i = i + 1;
    }
    out
}

} // verus!
