//! Text helpers: cleaning for similarity checks, truncation by chars and by paragraph.
use crate::utf16::{
    char_utf16_len, chars_within_utf16, lemma_chars_within_utf16, lemma_chars_within_utf16_max,
    lemma_take_le, lemma_take_next, lemma_utf16_le_utf8, str_chars, string_from_chars,
    string_from_range, utf16_units, utf8_units,
};
use vstd::prelude::*;

verus! {

/// The three-dot ellipsis appended to truncated text.
pub open spec fn ellipsis() -> Seq<char> {
    seq!['.', '.', '.']
}

/// `a - b`, or 0 when `b > a`.
pub open spec fn sat_sub(a: int, b: int) -> int {
    if a >= b {
        a - b
    } else {
        0
    }
}

/// `s` with every trailing newline removed.
pub open spec fn trim_end_newlines(s: Seq<char>) -> Seq<char>
    decreases s.len(),
{
    if s.len() > 0 && s.last() == '\n' {
        trim_end_newlines(s.drop_last())
    } else {
        s
    }
}

/// Index of the last newline among the first `k` chars of `s`.
pub open spec fn last_newline_before(s: Seq<char>, k: int) -> Option<nat>
    decreases k,
{
    if k <= 0 {
        None
    } else if s[k - 1] == '\n' {
        Some((k - 1) as nat)
    } else {
        last_newline_before(s, k - 1)
    }
}

/// The chars that the regex class `\w` matches (Unicode letters, marks, digits,
/// connector punctuation and join controls).
pub uninterp spec fn regex_word_char(c: char) -> bool;

/// Whether `clean_text` keeps `c`: a word char or a CJK unified ideograph in U+4E00..U+9FA5.
pub open spec fn kept_by_clean(c: char) -> bool {
    regex_word_char(c) || ('\u{4e00}' <= c && c <= '\u{9fa5}')
}

/// The Unicode lowercase mapping of a text, as `str::to_lowercase` computes it.
pub uninterp spec fn lowercase(s: Seq<char>) -> Seq<char>;

/// `clean_text` on a char sequence: non-word chars dropped, then lowercased.
pub open spec fn cleaned(s: Seq<char>) -> Seq<char> {
    lowercase(s.filter(|c: char| kept_by_clean(c)))
}

/// Removes every run of chars outside `[\w\u4e00-\u9fa5]` with `regex::Regex::replace_all`.
/// What is kept is stated through `regex_word_char`, the regex crate's `\w` class, which
/// the contract names and does not spell out.
#[verifier::external_body]
fn regex_strip_non_word(text: &str) -> (r: String)
    ensures
        r@ == text@.filter(|c: char| regex_word_char(c) || ('\u{4e00}' <= c && c <= '\u{9fa5}')),
{
    regex::Regex::new(r"[^\w\u4e00-\u9fa5]+").unwrap().replace_all(text, "").into_owned()
}

/// `str::to_lowercase`: the result is named, not spelled out.
#[verifier::external_body]
pub(crate) fn str_to_lowercase(text: &str) -> (r: String)
    ensures
        r@ == lowercase(text@),
{
    text.to_lowercase()
}

/// Drops everything but word chars and CJK ideographs, then lowercases.
pub fn clean_text(text: &str) -> (r: String)
    ensures
        r@ == cleaned(text@),
{
    let stripped = regex_strip_non_word(text);
    assert((|c: char| kept_by_clean(c)) =~= (|c: char|
        regex_word_char(c) || ('\u{4e00}' <= c && c <= '\u{9fa5}')));
    str_to_lowercase(stripped.as_str())
}

/// `text` itself when it has at most `max_len` chars; otherwise its first
/// `max_len - 3` chars (none when `max_len < 3`) followed by `...`.
pub fn truncate_text(text: &str, max_len: usize) -> (r: String)
    ensures
        r@ == (if text@.len() <= max_len {
            text@
        } else {
            text@.take(sat_sub(max_len as int, 3)) + ellipsis()
        }),
{
    let cs = str_chars(text);
    if cs.len() <= max_len {
        return string_from_range(cs.as_slice(), 0, cs.len());
    }
    let keep = if max_len >= 3 {
        max_len - 3
    } else {
        0
    };
    let mut v: Vec<char> = Vec::new();
    let mut i: usize = 0;
    while i < keep
        invariant
            keep < cs@.len(),
            i <= keep,
            v@ == cs@.take(i as int),
        decreases keep - i,
    {
        v.push(cs[i]);
        i = i + 1;
    }
    v.push('.');
    v.push('.');
    v.push('.');
    assert(v@ =~= text@.take(sat_sub(max_len as int, 3)) + ellipsis());
    string_from_chars(v.as_slice())
}

/// The result of `find_last_paragraph_boundary` on a char sequence.
pub open spec fn paragraph_boundary(s: Seq<char>, max_utf16: int) -> (nat, bool) {
    match last_newline_before(s, chars_within_utf16(s, max_utf16) as int) {
        Some(j) => (utf16_units(s.take(j + 1 as int)), true),
        None => (0, false),
    }
}

/// `chars_within_utf16` of the UTF-16 length of a prefix is that prefix's length.
pub proof fn lemma_chars_within_prefix(s: Seq<char>, m: int)
    requires
        0 <= m <= s.len(),
    ensures
        chars_within_utf16(s, utf16_units(s.take(m)) as int) == m,
{
    let b = utf16_units(s.take(m)) as int;
    lemma_chars_within_utf16_max(s, b, m);
    lemma_chars_within_utf16(s, b);
    let k = chars_within_utf16(s, b) as int;
    if k > m {
        lemma_take_next(s, m);
        lemma_take_le(s.take(k), m + 1);
        assert(s.take(k).take(m + 1) =~= s.take(m + 1));
    }
}

/// `last_newline_before` finds a newline below `k`, and none after it.
pub proof fn lemma_last_newline(s: Seq<char>, k: int)
    requires
        0 <= k <= s.len(),
    ensures
        last_newline_before(s, k) matches Some(j) ==> j < k && s[j as int] == '\n' && forall|
            i: int,
        |
            j < i < k ==> s[i] != '\n',
        last_newline_before(s, k) is None ==> forall|i: int| 0 <= i < k ==> s[i] != '\n',
    decreases k,
{
    if k > 0 {
        lemma_last_newline(s, k - 1);
    }
}

/// The UTF-16 end offset of the last newline that fits within `max_utf16` units, and
/// whether there is one.
pub fn find_last_paragraph_boundary(text: &str, max_utf16: usize) -> (r: (usize, bool))
    ensures
        r == ((paragraph_boundary(text@, max_utf16 as int).0) as usize, paragraph_boundary(
            text@,
            max_utf16 as int,
        ).1),
        r.0 as int == paragraph_boundary(text@, max_utf16 as int).0,
{
    let cs = str_chars(text);
    let k = chars_index_after_budget(cs.as_slice(), max_utf16);
    let ghost s = cs@;
    let mut last: usize = 0;
    let mut found = false;
    let mut current: usize = 0;
    let mut i: usize = 0;
    while i < k
        invariant
            s == cs@,
            k <= s.len(),
            i <= k,
            utf8_units(s) <= isize::MAX,
            current == utf16_units(s.take(i as int)),
            found == (last_newline_before(s, i as int) is Some),
            found ==> last as int == utf16_units(
                s.take(last_newline_before(s, i as int).unwrap() + 1 as int),
            ),
            !found ==> last == 0,
        decreases k - i,
    {
        proof {
            lemma_take_next(s, i as int);
            lemma_take_le(s, i + 1);
            lemma_utf16_le_utf8(s);
        }
        current = current + char_utf16_len(cs[i]);
        if cs[i] == '\n' {
            last = current;
            found = true;
        }
        i = i + 1;
    }
    (last, found)
}

/// Number of leading chars of `cs` that fit within `budget` UTF-16 units.
fn chars_index_after_budget(cs: &[char], budget: usize) -> (k: usize)
    requires
        utf8_units(cs@) <= isize::MAX,
    ensures
        k == chars_within_utf16(cs@, budget as int),
        k <= cs@.len(),
{
    let ghost s = cs@;
    let mut current: usize = 0;
    let mut i: usize = 0;
    assert(s.skip(0) =~= s);
    while i < cs.len()
        invariant
            s == cs@,
            i <= s.len(),
            current == utf16_units(s.take(i as int)),
            current <= budget,
            utf8_units(s) <= isize::MAX,
            chars_within_utf16(s, budget as int) == i + chars_within_utf16(
                s.skip(i as int),
                budget - current,
            ),
        decreases s.len() - i,
    {
        let c = cs[i];
        assert(s.skip(i as int)[0] == c);
        assert(s.skip(i as int).drop_first() =~= s.skip(i + 1));
        proof {
            lemma_take_next(s, i as int);
            lemma_take_le(s, i + 1);
            lemma_utf16_le_utf8(s);
        }
        let next = current + char_utf16_len(c);
        if next > budget {
            return i;
        }
        current = next;
        i = i + 1;
    }
    assert(s.skip(i as int).len() == 0);
    i
}

/// What `truncate_by_paragraph` returns for a char sequence.
pub open spec fn paragraph_truncation(s: Seq<char>, max_utf16: int) -> Seq<char> {
    match last_newline_before(s, chars_within_utf16(s, max_utf16) as int) {
        Some(j) => trim_end_newlines(s.take(j + 1 as int)),
        None => if max_utf16 > 0 {
            s.take(chars_within_utf16(s, sat_sub(max_utf16, 3)) as int) + ellipsis()
        } else {
            Seq::empty()
        },
    }
}

/// `cs[..k]` without its trailing newlines.
fn trim_end_newlines_prefix(cs: &[char], k: usize) -> (r: String)
    requires
        k <= cs@.len(),
    ensures
        r@ == trim_end_newlines(cs@.take(k as int)),
{
    let mut end = k;
    while end > 0 && cs[end - 1] == '\n'
        invariant
            end <= k <= cs@.len(),
            trim_end_newlines(cs@.take(k as int)) == trim_end_newlines(cs@.take(end as int)),
        decreases end,
    {
        assert(cs@.take(end as int).drop_last() =~= cs@.take(end - 1));
        end = end - 1;
    }
    string_from_range(cs, 0, end)
}

/// Cuts `text` at the last newline within `max_utf16` UTF-16 units (dropping trailing
/// newlines); without such a newline, keeps what fits in `max_utf16 - 3` units and
/// appends `...`; returns the empty string when `max_utf16` is 0.
pub fn truncate_by_paragraph(text: &str, max_utf16: usize) -> (r: String)
    ensures
        r@ == paragraph_truncation(text@, max_utf16 as int),
{
    let (boundary, is_newline) = find_last_paragraph_boundary(text, max_utf16);
    let cs = str_chars(text);
    let ghost s = cs@;
    proof {
        lemma_chars_within_utf16(s, max_utf16 as int);
    }
    if is_newline && boundary > 0 {
        let ghost j = last_newline_before(s, chars_within_utf16(s, max_utf16 as int) as int).unwrap();
        proof {
            lemma_last_newline(s, chars_within_utf16(s, max_utf16 as int) as int);
            lemma_chars_within_prefix(s, j + 1 as int);
        }
        let b = chars_index_after_budget(cs.as_slice(), boundary);
        trim_end_newlines_prefix(cs.as_slice(), b)
    } else if max_utf16 > 0 {
        proof {
            if is_newline {
                lemma_last_newline(s, chars_within_utf16(s, max_utf16 as int) as int);
                let j = last_newline_before(
                    s,
                    chars_within_utf16(s, max_utf16 as int) as int,
                ).unwrap();
                lemma_take_next(s, j as int);
            }
        }
        let budget = if max_utf16 >= 3 {
            max_utf16 - 3
        } else {
            0
        };
        let b = chars_index_after_budget(cs.as_slice(), budget);
        let mut v: Vec<char> = Vec::new();
        let mut i: usize = 0;
        while i < b
            invariant
                b <= cs@.len(),
                i <= b,
                v@ == cs@.take(i as int),
            decreases b - i,
        {
            v.push(cs[i]);
            i = i + 1;
        }
        v.push('.');
        v.push('.');
        v.push('.');
        assert(v@ =~= s.take(b as int) + ellipsis());
        string_from_chars(v.as_slice())
    } else {
        proof {
            if is_newline {
                lemma_last_newline(s, chars_within_utf16(s, max_utf16 as int) as int);
                let j = last_newline_before(
                    s,
                    chars_within_utf16(s, max_utf16 as int) as int,
                ).unwrap();
                lemma_take_next(s, j as int);
            }
        }
        string_from_chars(Vec::<char>::new().as_slice())
    }
}

} // verus!

verus! {

/// The chars of the Unicode `White_Space` property, which `char::is_whitespace`
/// accepts: U+0009 to U+000D, U+0020, U+0085, U+00A0, U+1680, U+2000 to U+200A,
/// U+2028, U+2029, U+202F, U+205F and U+3000.
pub open spec fn unicode_whitespace(c: char) -> bool {
    let u = c as u32;
    (0x9 <= u <= 0xd) || u == 0x20 || u == 0x85 || u == 0xa0 || u == 0x1680 || (0x2000 <= u
        <= 0x200a) || u == 0x2028 || u == 0x2029 || u == 0x202f || u == 0x205f || u == 0x3000
}

/// Whether `c` is whitespace, as `unicode_whitespace` states.
pub(crate) fn char_is_whitespace(c: char) -> (b: bool)
    ensures
        b == unicode_whitespace(c),
{
    let u = c as u32;
    (0x9 <= u && u <= 0xd) || u == 0x20 || u == 0x85 || u == 0xa0 || u == 0x1680 || (0x2000 <= u
        && u <= 0x200a) || u == 0x2028 || u == 0x2029 || u == 0x202f || u == 0x205f || u == 0x3000
}

/// Number of leading whitespace chars of `s`.
pub open spec fn leading_ws(s: Seq<char>) -> nat
    decreases s.len(),
{
    if s.len() > 0 && unicode_whitespace(s[0]) {
        1 + leading_ws(s.drop_first())
    } else {
        0
    }
}

/// Number of trailing whitespace chars of `s`.
pub open spec fn trailing_ws(s: Seq<char>) -> nat
    decreases s.len(),
{
    if s.len() > 0 && unicode_whitespace(s.last()) {
        1 + trailing_ws(s.drop_last())
    } else {
        0
    }
}

/// `s` without leading whitespace, as `str::trim_start` gives it.
pub open spec fn trim_start_ws(s: Seq<char>) -> Seq<char> {
    s.skip(leading_ws(s) as int)
}

/// `s` without trailing whitespace, as `str::trim_end` gives it.
pub open spec fn trim_end_ws(s: Seq<char>) -> Seq<char> {
    s.take(s.len() - trailing_ws(s))
}

/// `s` without leading and trailing whitespace, as `str::trim` gives it.
pub open spec fn trim_ws(s: Seq<char>) -> Seq<char> {
    trim_end_ws(trim_start_ws(s))
}

/// Whether `s` is empty or only whitespace.
pub open spec fn is_blank(s: Seq<char>) -> bool {
    forall|i: int| 0 <= i < s.len() ==> unicode_whitespace(#[trigger] s[i])
}

pub proof fn lemma_leading_ws(s: Seq<char>)
    ensures
        leading_ws(s) <= s.len(),
        forall|i: int| 0 <= i < leading_ws(s) ==> unicode_whitespace(#[trigger] s[i]),
        leading_ws(s) < s.len() ==> !unicode_whitespace(s[leading_ws(s) as int]),
    decreases s.len(),
{
    if s.len() > 0 && unicode_whitespace(s[0]) {
        lemma_leading_ws(s.drop_first());
        assert forall|i: int| 0 <= i < leading_ws(s) implies unicode_whitespace(#[trigger] s[i]) by {
            if i > 0 {
                assert(s[i] == s.drop_first()[i - 1]);
            }
        }
    }
}

pub proof fn lemma_trailing_ws(s: Seq<char>)
    ensures
        trailing_ws(s) <= s.len(),
        forall|i: int|
            s.len() - trailing_ws(s) <= i < s.len() ==> unicode_whitespace(#[trigger] s[i]),
        trailing_ws(s) < s.len() ==> !unicode_whitespace(s[s.len() - trailing_ws(s) - 1]),
    decreases s.len(),
{
    if s.len() > 0 && unicode_whitespace(s.last()) {
        lemma_trailing_ws(s.drop_last());
        assert forall|i: int| s.len() - trailing_ws(s) <= i < s.len() implies unicode_whitespace(
            #[trigger] s[i],
        ) by {
            if i < s.len() - 1 {
                assert(s[i] == s.drop_last()[i]);
            }
        }
    }
}

/// A trimmed text is empty exactly when the text is blank.
pub proof fn lemma_trim_empty_iff_blank(s: Seq<char>)
    ensures
        trim_ws(s).len() == 0 <==> is_blank(s),
{
    lemma_leading_ws(s);
    let t = trim_start_ws(s);
    lemma_trailing_ws(t);
    if leading_ws(s) < s.len() {
        assert(t[0] == s[leading_ws(s) as int]);
        if trailing_ws(t) == t.len() {
            assert(unicode_whitespace(t[0]));
        }
    }
}

/// Bounds `[start, end)` of `cs` without leading and trailing whitespace.
pub fn trim_bounds(cs: &[char]) -> (r: (usize, usize))
    ensures
        r.0 <= r.1 <= cs@.len(),
        r.0 == leading_ws(cs@),
        cs@.subrange(r.0 as int, r.1 as int) == trim_ws(cs@),
{
    let ghost s = cs@;
    let mut start: usize = 0;
    assert(s.skip(0) =~= s);
    while start < cs.len() && char_is_whitespace(cs[start])
        invariant
            start <= s.len(),
            s == cs@,
            leading_ws(s) == start + leading_ws(s.skip(start as int)),
        decreases s.len() - start,
    {
        assert(s.skip(start as int).drop_first() =~= s.skip(start + 1));
        start = start + 1;
    }
    let ghost t = s.skip(start as int);
    assert(leading_ws(t) == 0);
    let mut end: usize = cs.len();
    assert(t.take(t.len() as int) =~= t);
    while end > start && char_is_whitespace(cs[end - 1])
        invariant
            start <= end <= s.len(),
            s == cs@,
            t == s.skip(start as int),
            trailing_ws(t) == (s.len() - end) + trailing_ws(t.take(end - start)),
        decreases end,
    {
        assert(t.take(end - start).drop_last() =~= t.take(end - start - 1));
        assert(t.take(end - start).last() == s[end - 1]);
        end = end - 1;
    }
    assert(trailing_ws(t.take(end - start)) == 0);
    assert(s.subrange(start as int, end as int) =~= trim_ws(s));
    (start, end)
}

/// The chars of `text` without leading and trailing whitespace.
pub fn trim_chars(text: &str) -> (r: Vec<char>)
    ensures
        r@ == trim_ws(text@),
{
    let cs = str_chars(text);
    let (a, b) = trim_bounds(cs.as_slice());
    let mut v: Vec<char> = Vec::new();
    let mut i = a;
    while i < b
        invariant
            a <= i <= b <= cs@.len(),
            v@ == cs@.subrange(a as int, i as int),
        decreases b - i,
    {
        v.push(cs[i]);
        i = i + 1;
    }
    v
}

/// `text` without leading and trailing whitespace.
pub fn trim_string(text: &str) -> (r: String)
    ensures
        r@ == trim_ws(text@),
{
    let v = trim_chars(text);
    string_from_chars(v.as_slice())
}

/// Whether `text` is empty or only whitespace.
pub fn str_is_blank(text: &str) -> (b: bool)
    ensures
        b == is_blank(text@),
        b == (trim_ws(text@).len() == 0),
{
    let cs = str_chars(text);
    proof {
        lemma_trim_empty_iff_blank(text@);
    }
    let mut i: usize = 0;
    while i < cs.len()
        invariant
            i <= cs@.len(),
            cs@ == text@,
            forall|k: int| 0 <= k < i ==> unicode_whitespace(#[trigger] cs@[k]),
        decreases cs@.len() - i,
    {
        if !char_is_whitespace(cs[i]) {
            proof {
                lemma_trim_empty_iff_blank(text@);
            }
            return false;
        }
        i = i + 1;
    }
    proof {
        lemma_trim_empty_iff_blank(text@);
    }
    true
}

/// `p` is a prefix of `s`.
pub open spec fn has_prefix(s: Seq<char>, p: Seq<char>) -> bool {
    p.len() <= s.len() && s.take(p.len() as int) == p
}

/// `p` occurs in `s` as a contiguous run (the empty pattern occurs everywhere).
pub open spec fn contains_sub(s: Seq<char>, p: Seq<char>) -> bool {
    exists|i: int| 0 <= i <= s.len() - p.len() && #[trigger] s.subrange(i, i + p.len()) == p
}

/// Whether `cs` starts with `p`.
pub fn chars_start_with(cs: &[char], p: &[char]) -> (b: bool)
    ensures
        b == has_prefix(cs@, p@),
{
    if p.len() > cs.len() {
        return false;
    }
    let mut i: usize = 0;
    while i < p.len()
        invariant
            p@.len() <= cs@.len(),
            i <= p@.len(),
            cs@.take(i as int) == p@.take(i as int),
        decreases p@.len() - i,
    {
        if cs[i] != p[i] {
            assert(cs@.take(p@.len() as int)[i as int] != p@[i as int]);
            return false;
        }
        assert(cs@.take(i + 1) =~= cs@.take(i as int).push(cs@[i as int]));
        assert(p@.take(i + 1) =~= p@.take(i as int).push(p@[i as int]));
        i = i + 1;
    }
    assert(p@.take(p@.len() as int) =~= p@);
    true
}

/// Whether `p` matches `cs` at position `at`.
fn matches_at(cs: &[char], p: &[char], at: usize) -> (b: bool)
    requires
        at + p@.len() <= cs@.len(),
    ensures
        b == (cs@.subrange(at as int, at + p@.len()) == p@),
{
    let mut i: usize = 0;
    while i < p.len()
        invariant
            at + p.len() <= cs.len(),
            i <= p@.len(),
            cs@.subrange(at as int, at + i) =~= p@.take(i as int),
        decreases p@.len() - i,
    {
        if cs[at + i] != p[i] {
            assert(cs@.subrange(at as int, at + p@.len())[i as int] != p@[i as int]);
            return false;
        }
        assert(cs@.subrange(at as int, at + i + 1) =~= cs@.subrange(at as int, at + i).push(
            cs@[at + i],
        ));
        assert(p@.take(i + 1) =~= p@.take(i as int).push(p@[i as int]));
        i = i + 1;
    }
    assert(p@.take(p@.len() as int) =~= p@);
    true
}

/// Whether `p` occurs in `cs`.
pub fn chars_contain(cs: &[char], p: &[char]) -> (b: bool)
    ensures
        b == contains_sub(cs@, p@),
{
    if p.len() > cs.len() {
        return false;
    }
    let last = cs.len() - p.len();
    let mut at: usize = 0;
    loop
        invariant
            last == cs@.len() - p@.len(),
            at <= last,
            forall|i: int| 0 <= i < at ==> #[trigger] cs@.subrange(i, i + p@.len()) != p@,
        decreases last - at,
    {
        if matches_at(cs, p, at) {
            return true;
        }
        if at == last {
            return false;
        }
        at = at + 1;
    }
}

/// Whether `needle` occurs in `text`.
pub fn str_contains(text: &str, needle: &str) -> (b: bool)
    ensures
        b == contains_sub(text@, needle@),
{
    let a = str_chars(text);
    let b = str_chars(needle);
    chars_contain(a.as_slice(), b.as_slice())
}

/// `s` without every leading `c`.
pub open spec fn trim_start_char(s: Seq<char>, c: char) -> Seq<char>
    decreases s.len(),
{
    if s.len() > 0 && s[0] == c {
        trim_start_char(s.drop_first(), c)
    } else {
        s
    }
}

/// Index of the first char of `cs` at or after `from` that is not `c`.
pub fn skip_char(cs: &[char], from: usize, c: char) -> (r: usize)
    requires
        from <= cs@.len(),
    ensures
        from <= r <= cs@.len(),
        cs@.skip(r as int) == trim_start_char(cs@.skip(from as int), c),
{
    let mut i = from;
    while i < cs.len() && cs[i] == c
        invariant
            from <= i <= cs@.len(),
            trim_start_char(cs@.skip(from as int), c) == trim_start_char(cs@.skip(i as int), c),
        decreases cs@.len() - i,
    {
        assert(cs@.skip(i as int).drop_first() =~= cs@.skip(i + 1));
        i = i + 1;
    }
    i
}

} // verus!
