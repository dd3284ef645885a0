//! UTF-16 lengths and offsets of text, as Telegram measures entity positions.
//!
//! A text is modelled by its sequence of `char`s. The UTF-16 length of a char
//! is 2 for code points above the Basic Multilingual Plane and 1 otherwise; its
//! UTF-8 length is 1 to 4 bytes.
use vstd::prelude::*;

verus! {

broadcast use vstd::string::group_string_axioms;

/// UTF-16 code units of one char.
pub open spec fn utf16_width(c: char) -> nat {
    if (c as u32) >= 0x10000 {
        2
    } else {
        1
    }
}

/// UTF-8 bytes of one char.
pub open spec fn utf8_width(c: char) -> nat {
    let v = c as u32;
    if v < 0x80 {
        1
    } else if v < 0x800 {
        2
    } else if v < 0x10000 {
        3
    } else {
        4
    }
}

/// UTF-16 code units of a char sequence.
pub open spec fn utf16_units(s: Seq<char>) -> nat
    decreases s.len(),
{
    if s.len() == 0 {
        0
    } else {
        utf16_units(s.drop_last()) + utf16_width(s.last())
    }
}

/// UTF-8 bytes of a char sequence.
pub open spec fn utf8_units(s: Seq<char>) -> nat
    decreases s.len(),
{
    if s.len() == 0 {
        0
    } else {
        utf8_units(s.drop_last()) + utf8_width(s.last())
    }
}

/// Number of leading chars of `s` that start before UTF-8 byte offset `b`.
pub open spec fn chars_before_byte(s: Seq<char>, b: int) -> nat
    decreases s.len(),
{
    if s.len() == 0 || b <= 0 {
        0
    } else {
        1 + chars_before_byte(s.drop_first(), b - utf8_width(s[0]))
    }
}

/// Length of the longest prefix of `s` whose UTF-16 length is at most `budget`.
pub open spec fn chars_within_utf16(s: Seq<char>, budget: int) -> nat
    decreases s.len(),
{
    if s.len() == 0 || utf16_width(s[0]) > budget {
        0
    } else {
        1 + chars_within_utf16(s.drop_first(), budget - utf16_width(s[0]))
    }
}

/// Widths of a single char.
pub proof fn lemma_single(c: char)
    ensures
        utf16_units(seq![c]) == utf16_width(c),
        utf8_units(seq![c]) == utf8_width(c),
{
    reveal_with_fuel(utf16_units, 2);
    reveal_with_fuel(utf8_units, 2);
    assert(seq![c].drop_last() =~= Seq::<char>::empty());
    assert(seq![c].last() == c);
}

pub proof fn lemma_utf16_concat(a: Seq<char>, b: Seq<char>)
    ensures
        utf16_units(a + b) == utf16_units(a) + utf16_units(b),
    decreases b.len(),
{
    if b.len() == 0 {
        assert(a + b =~= a);
    } else {
        lemma_utf16_concat(a, b.drop_last());
        assert((a + b).drop_last() =~= a + b.drop_last());
    }
}

pub proof fn lemma_utf8_concat(a: Seq<char>, b: Seq<char>)
    ensures
        utf8_units(a + b) == utf8_units(a) + utf8_units(b),
    decreases b.len(),
{
    if b.len() == 0 {
        assert(a + b =~= a);
    } else {
        lemma_utf8_concat(a, b.drop_last());
        assert((a + b).drop_last() =~= a + b.drop_last());
    }
}

/// Extending a prefix by one char adds that char's widths.
pub proof fn lemma_take_next(s: Seq<char>, i: int)
    requires
        0 <= i < s.len(),
    ensures
        utf16_units(s.take(i + 1)) == utf16_units(s.take(i)) + utf16_width(s[i]),
        utf8_units(s.take(i + 1)) == utf8_units(s.take(i)) + utf8_width(s[i]),
{
    assert(s.take(i + 1).drop_last() =~= s.take(i));
}

/// A prefix is never longer than the whole, in either encoding.
pub proof fn lemma_take_le(s: Seq<char>, i: int)
    requires
        0 <= i <= s.len(),
    ensures
        utf16_units(s.take(i)) <= utf16_units(s),
        utf8_units(s.take(i)) <= utf8_units(s),
{
    lemma_utf16_concat(s.take(i), s.skip(i));
    lemma_utf8_concat(s.take(i), s.skip(i));
    assert(s.take(i) + s.skip(i) =~= s);
}

/// A text never has more UTF-16 units than UTF-8 bytes.
pub proof fn lemma_utf16_le_utf8(s: Seq<char>)
    ensures
        utf16_units(s) <= utf8_units(s),
        s.len() <= utf16_units(s),
    decreases s.len(),
{
    if s.len() > 0 {
        lemma_utf16_le_utf8(s.drop_last());
    }
}

/// The UTF-8 encoding of a text has `utf8_units` bytes.
pub proof fn lemma_encode_utf8_len(s: Seq<char>)
    ensures
        vstd::utf8::encode_utf8(s).len() == utf8_units(s),
    decreases s.len(),
{
    broadcast use vstd::utf8::char_is_scalar;

    if s.len() > 0 {
        lemma_encode_utf8_len(s.drop_first());
        lemma_utf8_concat(seq![s[0]], s.drop_first());
        assert(seq![s[0]] + s.drop_first() =~= s);
        lemma_single(s[0]);
        vstd::utf8::char_is_scalar(s[0]);
    }
}

/// `chars_within_utf16` is the longest prefix within the budget.
pub proof fn lemma_chars_within_utf16(s: Seq<char>, budget: int)
    ensures
        chars_within_utf16(s, budget) <= s.len(),
        budget >= 0 ==> utf16_units(s.take(chars_within_utf16(s, budget) as int)) <= budget,
        chars_within_utf16(s, budget) < s.len() ==> utf16_units(
            s.take(chars_within_utf16(s, budget) + 1 as int),
        ) > budget,
    decreases s.len(),
{
    let k = chars_within_utf16(s, budget);
    if s.len() == 0 {
        assert(s.take(0) =~= Seq::<char>::empty());
    } else if utf16_width(s[0]) > budget {
        assert(s.take(0) =~= Seq::<char>::empty());
        assert(s.take(1) =~= seq![s[0]]);
        lemma_single(s[0]);
    } else {
        let t = s.drop_first();
        let b2 = budget - utf16_width(s[0]);
        lemma_chars_within_utf16(t, b2);
        let k2 = chars_within_utf16(t, b2);
        lemma_single(s[0]);
        assert(s.take(k as int) =~= seq![s[0]] + t.take(k2 as int));
        lemma_utf16_concat(seq![s[0]], t.take(k2 as int));
        if k < s.len() {
            assert(s.take(k + 1 as int) =~= seq![s[0]] + t.take(k2 + 1 as int));
            lemma_utf16_concat(seq![s[0]], t.take(k2 + 1 as int));
        }
    }
}

/// Any prefix within the budget is no longer than `chars_within_utf16`.
pub proof fn lemma_chars_within_utf16_max(s: Seq<char>, budget: int, j: int)
    requires
        0 <= j <= s.len(),
        utf16_units(s.take(j)) <= budget,
    ensures
        j <= chars_within_utf16(s, budget),
{
    lemma_chars_within_utf16(s, budget);
    let k = chars_within_utf16(s, budget) as int;
    if j > k {
        lemma_take_le(s.take(j), k + 1);
        assert(s.take(j).take(k + 1) =~= s.take(k + 1));
    }
}

/// A larger budget admits a prefix at least as long.
pub proof fn lemma_chars_within_utf16_mono(s: Seq<char>, a: int, b: int)
    requires
        0 <= a <= b,
    ensures
        chars_within_utf16(s, a) <= chars_within_utf16(s, b),
{
    lemma_chars_within_utf16(s, a);
    lemma_chars_within_utf16_max(s, b, chars_within_utf16(s, a) as int);
}

/// The chars before the byte offset where char `j` starts are the first `j`.
proof fn lemma_chars_before_boundary(s: Seq<char>, j: int)
    requires
        0 <= j <= s.len(),
    ensures
        chars_before_byte(s, utf8_units(s.take(j)) as int) == j,
    decreases s.len(),
{
    if j == 0 {
        assert(s.take(0) =~= Seq::<char>::empty());
    } else {
        let t = s.drop_first();
        assert(s.take(j) =~= seq![s[0]] + t.take(j - 1));
        lemma_utf8_concat(seq![s[0]], t.take(j - 1));
        lemma_single(s[0]);
        lemma_chars_before_boundary(t, j - 1);
    }
}

/// Every UTF-16 offset falls in one char: an offset from where char `j` starts to just
/// before the next char maps to char `j` (an offset inside a surrogate pair to the
/// start of its char), and an offset at or past the end maps to the end.
pub proof fn law_utf16_offset_maps_to_its_char(s: Seq<char>, j: int, k: int)
    requires
        0 <= j <= s.len(),
        utf16_units(s.take(j)) <= k,
        j < s.len() ==> k < utf16_units(s.take(j + 1)),
    ensures
        chars_within_utf16(s, k) == j,
{
    lemma_chars_within_utf16_max(s, k, j);
    lemma_chars_within_utf16(s, k);
    let c = chars_within_utf16(s, k) as int;
    if c > j {
        lemma_take_le(s.take(c), j + 1);
        assert(s.take(c).take(j + 1) =~= s.take(j + 1));
    }
}

/// Converting a char boundary's byte offset to a UTF-16 offset and back gives the same
/// byte offset: `utf16_offset` and `char_from_utf16_offset` invert each other on char
/// boundaries.
pub proof fn law_utf16_offset_round_trip(s: Seq<char>, j: int)
    requires
        0 <= j <= s.len(),
    ensures
        chars_before_byte(s, utf8_units(s.take(j)) as int) == j,
        chars_within_utf16(s, utf16_units(s.take(j)) as int) == j,
        utf8_units(
            s.take(
                chars_within_utf16(
                    s,
                    utf16_units(s.take(chars_before_byte(s, utf8_units(s.take(j)) as int) as int)) as int,
                ) as int,
            ),
        ) == utf8_units(s.take(j)),
{
    lemma_chars_before_boundary(s, j);
    if j < s.len() {
        lemma_take_next(s, j);
        if utf16_width(s[j]) == 0 {
        }
    }
    law_utf16_offset_maps_to_its_char(s, j, utf16_units(s.take(j)) as int);
}

/// Byte length of `s`: at most `isize::MAX`, as for every Rust allocation.
#[verifier::external_body]
fn str_byte_len(s: &str) -> (n: usize)
    ensures
        n == vstd::utf8::encode_utf8(s@).len(),
        n <= isize::MAX,
{
    s.len()
}

/// A `String` holding exactly the given chars.
#[verifier::external_body]
pub(crate) fn string_from_chars(chars: &[char]) -> (s: String)
    ensures
        s@ == chars@,
{
    chars.iter().collect()
}

/// The chars of `s`, in order, together with a proof-carrying bound on its size.
pub fn str_chars(s: &str) -> (r: Vec<char>)
    ensures
        r@ == s@,
        utf8_units(s@) <= isize::MAX,
{
    let n = str_byte_len(s);
    proof {
        lemma_encode_utf8_len(s@);
    }
    let mut r: Vec<char> = Vec::new();
    for c in it: s.chars()
        invariant
            r@ == it.seq().take(it.index() as int),
    {
        r.push(c);
    }
    r
}

/// UTF-16 length of one char.
pub fn char_utf16_len(c: char) -> (n: usize)
    ensures
        n == utf16_width(c),
{
    if (c as u32) >= 0x10000 {
        2
    } else {
        1
    }
}

/// UTF-8 length of one char.
pub fn char_utf8_len(c: char) -> (n: usize)
    ensures
        n == utf8_width(c),
{
    let v = c as u32;
    if v < 0x80 {
        1
    } else if v < 0x800 {
        2
    } else if v < 0x10000 {
        3
    } else {
        4
    }
}

/// UTF-16 length of a char sequence whose UTF-8 size fits a Rust allocation.
pub fn chars_utf16_len(cs: &[char]) -> (n: usize)
    requires
        utf8_units(cs@) <= isize::MAX,
    ensures
        n == utf16_units(cs@),
{
    let mut n: usize = 0;
    let mut i: usize = 0;
    while i < cs.len()
        invariant
            i <= cs@.len(),
            n == utf16_units(cs@.take(i as int)),
            utf8_units(cs@) <= isize::MAX,
        decreases cs@.len() - i,
    {
        proof {
            lemma_take_next(cs@, i as int);
            lemma_take_le(cs@, i + 1);
            lemma_utf16_le_utf8(cs@);
        }
        n = n + char_utf16_len(cs[i]);
        i = i + 1;
    }
    assert(cs@.take(cs@.len() as int) =~= cs@);
    n
}

/// UTF-16 length of `text`.
pub fn utf16_len(text: &str) -> (n: usize)
    ensures
        n == utf16_units(text@),
{
    let cs = str_chars(text);
    chars_utf16_len(cs.as_slice())
}

/// UTF-16 length of the chars of `text` that start before UTF-8 byte offset `byte_offset`.
pub fn utf16_offset(text: &str, byte_offset: usize) -> (n: usize)
    ensures
        n == utf16_units(text@.take(chars_before_byte(text@, byte_offset as int) as int)),
{
    let cs = str_chars(text);
    let ghost s = cs@;
    let mut count: usize = 0;
    let mut byte: usize = 0;
    let mut i: usize = 0;
    assert(s.skip(0) =~= s);
    while i < cs.len() && byte < byte_offset
        invariant
            s == cs@,
            i <= s.len(),
            count == utf16_units(s.take(i as int)),
            byte == utf8_units(s.take(i as int)),
            utf8_units(s) <= isize::MAX,
            chars_before_byte(s, byte_offset as int) == i + chars_before_byte(
                s.skip(i as int),
                byte_offset - byte,
            ),
        decreases s.len() - i,
    {
        let c = cs[i];
        assert(s.skip(i as int)[0] == c);
        assert(s.skip(i as int).drop_first() =~= s.skip(i + 1));
        proof {
            lemma_take_next(s, i as int);
            lemma_take_le(s, i + 1);
            lemma_utf16_le_utf8(s.take(i + 1));
        }
        count = count + char_utf16_len(c);
        byte = byte + char_utf8_len(c);
        i = i + 1;
    }
    assert(chars_before_byte(s.skip(i as int), byte_offset - byte) == 0);
    count
}

/// Char index in `cs` of the char holding UTF-16 offset `off`, or `cs.len()` past the end.
pub fn chars_index_at_utf16(cs: &[char], off: usize) -> (k: usize)
    requires
        utf8_units(cs@) <= isize::MAX,
    ensures
        k == chars_within_utf16(cs@, off as int),
        k <= cs@.len(),
{
    let ghost s = cs@;
    let mut current: usize = 0;
    let mut i: usize = 0;
    assert(s.skip(0) =~= s);
    while i < cs.len()
        invariant
            s == cs@,
            i <= s.len(),
            current == utf16_units(s.take(i as int)),
            current <= off,
            utf8_units(s) <= isize::MAX,
            chars_within_utf16(s, off as int) == i + chars_within_utf16(
                s.skip(i as int),
                off - current,
            ),
        decreases s.len() - i,
    {
        let c = cs[i];
        assert(s.skip(i as int)[0] == c);
        assert(s.skip(i as int).drop_first() =~= s.skip(i + 1));
        proof {
            lemma_take_next(s, i as int);
            lemma_take_le(s, i + 1);
            lemma_utf16_le_utf8(s);
        }
        if current == off {
            return i;
        }
        let next = current + char_utf16_len(c);
        if next > off {
            return i;
        }
        current = next;
        i = i + 1;
    }
    assert(s.skip(i as int).len() == 0);
    i
}

/// UTF-8 byte length of the first `k` chars of `cs`.
pub fn chars_utf8_prefix_len(cs: &[char], k: usize) -> (n: usize)
    requires
        k <= cs@.len(),
        utf8_units(cs@) <= isize::MAX,
    ensures
        n == utf8_units(cs@.take(k as int)),
{
    let mut n: usize = 0;
    let mut i: usize = 0;
    while i < k
        invariant
            i <= k <= cs@.len(),
            n == utf8_units(cs@.take(i as int)),
            utf8_units(cs@) <= isize::MAX,
        decreases k - i,
    {
        proof {
            lemma_take_next(cs@, i as int);
            lemma_take_le(cs@, i + 1);
        }
        n = n + char_utf8_len(cs[i]);
        i = i + 1;
    }
    n
}

/// UTF-8 byte offset in `text` of the char holding UTF-16 offset `utf16_offset`,
/// or the byte length of `text` when the offset lies past the end.
pub fn char_from_utf16_offset(text: &str, utf16_offset: usize) -> (r: usize)
    ensures
        r == utf8_units(text@.take(chars_within_utf16(text@, utf16_offset as int) as int)),
{
    let cs = str_chars(text);
    let k = chars_index_at_utf16(cs.as_slice(), utf16_offset);
    chars_utf8_prefix_len(cs.as_slice(), k)
}

/// The chars `cs[from..to]` as a `String`.
pub fn string_from_range(cs: &[char], from: usize, to: usize) -> (s: String)
    requires
        from <= to <= cs@.len(),
    ensures
        s@ == cs@.subrange(from as int, to as int),
{
    let mut v: Vec<char> = Vec::new();
    let mut i = from;
    while i < to
        invariant
            from <= i <= to <= cs@.len(),
            v@ == cs@.subrange(from as int, i as int),
        decreases to - i,
    {
        v.push(cs[i]);
        i = i + 1;
    }
    string_from_chars(v.as_slice())
}

/// The part of `text` between two UTF-16 offsets, each rounded down to the start
/// of the char that holds it.
pub fn utf16_slice(text: &str, utf16_start: usize, utf16_end: usize) -> (r: String)
    requires
        utf16_start <= utf16_end || chars_within_utf16(text@, utf16_start as int)
            <= chars_within_utf16(text@, utf16_end as int),
    ensures
        r@ == text@.subrange(
            chars_within_utf16(text@, utf16_start as int) as int,
            chars_within_utf16(text@, utf16_end as int) as int,
        ),
{
    proof {
        if utf16_start <= utf16_end {
            lemma_chars_within_utf16_mono(text@, utf16_start as int, utf16_end as int);
        }
    }
    let cs = str_chars(text);
    let a = chars_index_at_utf16(cs.as_slice(), utf16_start);
    let b = chars_index_at_utf16(cs.as_slice(), utf16_end);
    string_from_range(cs.as_slice(), a, b)
}

} // verus!
