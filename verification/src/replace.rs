//! Text replacement rules (literal or regular expression) applied to a message text,
//! with its formatting entities moved or dropped to follow the edits.
use crate::model::TextEntity;
use crate::signature::decimal;
use crate::table::str_eq;
use crate::text::{chars_contain, contains_sub};
use crate::utf16::{
    chars_before_byte, chars_utf16_len, lemma_take_le, lemma_take_next, lemma_utf16_le_utf8,
    str_chars, string_from_chars, string_from_range, utf16_units, utf8_units, utf8_width,
    char_utf8_len,
};
use vstd::prelude::*;

verus! {

/// Whether `regex::Regex::new` accepts the pattern; the result is named, not spelled out.
pub uninterp spec fn regex_valid(pattern: Seq<char>) -> bool;

/// Byte range of the leftmost-first match of the pattern in the text, as
/// `regex::Regex::find` reports it; named, not spelled out.
pub uninterp spec fn regex_first_match(pattern: Seq<char>, text: Seq<char>) -> Option<(nat, nat)>;

/// The capture groups (group 0 first) of the leftmost-first match of the pattern in the
/// text, as `regex::Regex::captures` reports them; named, not spelled out.
pub uninterp spec fn regex_capture_groups(pattern: Seq<char>, text: Seq<char>) -> Option<
    Seq<Option<Seq<char>>>,
>;

/// Whether `pattern` compiles with `regex::Regex::new`.
#[verifier::external_body]
fn regex_compiles(pattern: &str) -> (r: bool)
    ensures
        r == regex_valid(pattern@),
{
    regex::Regex::new(pattern).is_ok()
}

/// `regex::Regex::find` with the compiled `pattern`: the byte range of the first match.
/// As the regex crate documents, `start <= end` and both fall on char boundaries.
#[verifier::external_body]
fn regex_find(pattern: &str, text: &str) -> (r: Option<(usize, usize)>)
    requires
        regex_valid(pattern@),
    ensures
        r matches Some((s, e)) ==> regex_first_match(pattern@, text@) == Some((s as nat, e as nat)),
        r is None ==> regex_first_match(pattern@, text@) is None,
        r matches Some((s, e)) ==> s <= e && exists|i: int, j: int|
            0 <= i <= j <= text@.len() && utf8_units(text@.take(i)) == s && utf8_units(
                text@.take(j),
            ) == e,
{
    match regex::Regex::new(pattern) {
        Ok(re) => re.find(text).map(|m| (m.start(), m.end())),
        Err(_) => None,
    }
}

/// The views of optional capture texts.
pub open spec fn groups_view(g: Seq<Option<String>>) -> Seq<Option<Seq<char>>> {
    g.map_values(|o: Option<String>| crate::model::opt_str(o))
}

/// `regex::Regex::captures` with the compiled `pattern`: the text of each group.
#[verifier::external_body]
fn regex_groups(pattern: &str, text: &str) -> (r: Option<Vec<Option<String>>>)
    requires
        regex_valid(pattern@),
    ensures
        match r {
            Some(g) => regex_capture_groups(pattern@, text@) == Some(groups_view(g@)),
            None => regex_capture_groups(pattern@, text@) is None,
        },
{
    match regex::Regex::new(pattern) {
        Ok(re) => re.captures(text).map(
            |c| c.iter().map(|m| m.map(|m| m.as_str().to_string())).collect(),
        ),
        Err(_) => None,
    }
}

/// A replacement rule as a mathematical value.
pub struct RuleSpec {
    pub is_regex: bool,
    pub pattern: Seq<char>,
    pub replacement: Seq<char>,
}

/// A rule: `rule_type` `regex` makes the pattern a regular expression, any other a
/// literal text.
pub struct ReplacementRule {
    rule_type: String,
    pattern: String,
    replacement: String,
}

impl View for ReplacementRule {
    type V = RuleSpec;

    closed spec fn view(&self) -> RuleSpec {
        RuleSpec {
            is_regex: self.rule_type@ == "regex"@,
            pattern: self.pattern@,
            replacement: self.replacement@,
        }
    }
}

impl ReplacementRule {
    /// A rule of the given type, pattern and replacement.
    pub closed spec fn spec_rule_type(&self) -> Seq<char> {
        self.rule_type@
    }

    pub fn new(rule_type: String, pattern: String, replacement: String) -> (r: Self)
        ensures
            r.spec_rule_type() == rule_type@,
            r@ == (RuleSpec {
                is_regex: rule_type@ == "regex"@,
                pattern: pattern@,
                replacement: replacement@,
            }),
    {
        ReplacementRule { rule_type, pattern, replacement }
    }

    /// The rule's type.
    pub fn rule_type(&self) -> (r: &str)
        ensures
            r@ == self.spec_rule_type(),
    {
        self.rule_type.as_str()
    }

    /// The rule's pattern.
    pub fn pattern(&self) -> (r: &str)
        ensures
            r@ == self@.pattern,
    {
        self.pattern.as_str()
    }

    /// The rule's replacement.
    pub fn replacement(&self) -> (r: &str)
        ensures
            r@ == self@.replacement,
    {
        self.replacement.as_str()
    }
}

/// First index at or after `i` where `p` occurs in `s`.
pub open spec fn find_from(s: Seq<char>, p: Seq<char>, i: int) -> Option<int>
    decreases s.len() + 1 - i,
{
    if i < 0 || i + p.len() > s.len() {
        None
    } else if s.subrange(i, i + p.len()) == p {
        Some(i)
    } else {
        find_from(s, p, i + 1)
    }
}

/// Char range of the first match of a rule in `t`.
pub open spec fn rule_match(r: RuleSpec, t: Seq<char>) -> Option<(int, int)> {
    if r.is_regex {
        match regex_first_match(r.pattern, t) {
            Some((bs, be)) => Some(
                (chars_before_byte(t, bs as int) as int, chars_before_byte(t, be as int) as int),
            ),
            None => None,
        }
    } else {
        match find_from(t, r.pattern, 0) {
            Some(i) => Some((i, i + r.pattern.len())),
            None => None,
        }
    }
}

/// `s` with every non-overlapping occurrence of the non-empty `from`, left to right,
/// replaced by `to`.
pub open spec fn replace_all(s: Seq<char>, from: Seq<char>, to: Seq<char>) -> Seq<char>
    decreases s.len(),
{
    if from.len() == 0 || s.len() < from.len() {
        s
    } else if s.take(from.len() as int) == from {
        to + replace_all(s.skip(from.len() as int), from, to)
    } else {
        seq![s[0]] + replace_all(s.drop_first(), from, to)
    }
}

/// `r` with `$j` replaced by the text of group `j`, for every group from `j` on that
/// matched, in increasing order.
pub open spec fn substitute_groups(r: Seq<char>, gs: Seq<Option<Seq<char>>>, j: nat) -> Seq<char>
    decreases gs.len() - j,
{
    if j >= gs.len() {
        r
    } else {
        let r2 = match gs[j as int] {
            Some(m) => replace_all(r, seq!['$'] + decimal(j as int), m),
            None => r,
        };
        substitute_groups(r2, gs, j + 1)
    }
}

/// The replacement text of a rule for its match `t[s..e]`.
pub open spec fn replacement_for(r: RuleSpec, t: Seq<char>, s: int, e: int) -> Seq<char> {
    if r.is_regex {
        match regex_capture_groups(r.pattern, t.subrange(s, e)) {
            Some(gs) => substitute_groups(r.replacement, gs, 1),
            None => r.replacement,
        }
    } else {
        r.replacement
    }
}

/// End of an entity, computed in `i32` as a release build does (wrapping).
pub open spec fn wrapped_end(e: TextEntity) -> i32 {
    e.offset.wrapping_add(e.length)
}

/// Whether an entity survives an edit of UTF-16 range `ms..me`: it ends before it,
/// starts after it, or covers it.
pub open spec fn survives_edit(e: TextEntity, ms: i32, me: i32) -> bool {
    wrapped_end(e) <= ms || e.offset >= me || (e.offset <= ms && wrapped_end(e) >= me)
}

/// An entity after an edit of `ms..me` that changed the length by `diff`: moved when
/// after the edit, stretched when covering it.
pub open spec fn moved_by_edit(e: TextEntity, ms: i32, me: i32, diff: i32) -> TextEntity {
    if wrapped_end(e) <= ms {
        e
    } else if e.offset >= me {
        TextEntity { offset: e.offset.wrapping_add(diff), ..e }
    } else {
        TextEntity { length: e.length.wrapping_add(diff), ..e }
    }
}

/// The entities after an edit: those that survive, moved.
pub open spec fn edited_entities(es: Seq<TextEntity>, ms: i32, me: i32, diff: i32) -> Seq<
    TextEntity,
>
    decreases es.len(),
{
    if es.len() == 0 {
        es
    } else {
        let prev = edited_entities(es.drop_last(), ms, me, diff);
        if survives_edit(es.last(), ms, me) {
            prev.push(moved_by_edit(es.last(), ms, me, diff))
        } else {
            prev
        }
    }
}

/// Most replacements a rule makes: 100 for a regular expression, 1000 for a literal.
pub open spec fn max_iterations(r: RuleSpec) -> nat {
    if r.is_regex {
        100
    } else {
        1000
    }
}

/// Text and entities after a rule replaced its first match, up to `fuel` times; a
/// literal rule whose replacement contains its pattern replaces once.
pub open spec fn apply_rule(r: RuleSpec, t: Seq<char>, es: Seq<TextEntity>, fuel: nat) -> (
    Seq<char>,
    Seq<TextEntity>,
)
    decreases fuel,
{
    if fuel == 0 {
        (t, es)
    } else {
        match rule_match(r, t) {
            None => (t, es),
            Some((s, e)) => {
                let rep = replacement_for(r, t, s, e);
                let old16 = utf16_units(t.subrange(s, e));
                let new16 = utf16_units(rep);
                let diff = (#[verifier::truncate] (new16 as i32)).wrapping_sub(
            #[verifier::truncate] (old16 as i32),
        );
                let ms = utf16_units(t.take(s)) as i32;
                let me = ms.wrapping_add(old16 as i32);
                let t2 = t.take(s) + rep + t.skip(e);
                let es2 = edited_entities(es, ms, me, diff);
                if !r.is_regex && contains_sub(r.replacement, r.pattern) {
                    (t2, es2)
                } else {
                    apply_rule(r, t2, es2, (fuel - 1) as nat)
                }
            },
        }
    }
}

/// Text and entities after every rule in order.
pub open spec fn apply_rules(rs: Seq<RuleSpec>, t: Seq<char>, es: Seq<TextEntity>) -> (
    Seq<char>,
    Seq<TextEntity>,
)
    decreases rs.len(),
{
    if rs.len() == 0 {
        (t, es)
    } else {
        let (t1, e1) = apply_rules(rs.drop_last(), t, es);
        apply_rule(rs.last(), t1, e1, max_iterations(rs.last()))
    }
}

/// The views of a list of rules.
pub open spec fn rule_views(rs: Seq<ReplacementRule>) -> Seq<RuleSpec> {
    rs.map_values(|r: ReplacementRule| r@)
}

/// A rule that can be applied: a non-empty pattern, a valid one for a regex rule.
pub open spec fn usable_rule(r: RuleSpec) -> bool {
    r.pattern.len() > 0 && (r.is_regex ==> regex_valid(r.pattern))
}

/// The usable rules of `rs`, in order.
pub open spec fn usable_rules(rs: Seq<RuleSpec>) -> Seq<RuleSpec>
    decreases rs.len(),
{
    if rs.len() == 0 {
        rs
    } else if usable_rule(rs.last()) {
        usable_rules(rs.drop_last()).push(rs.last())
    } else {
        usable_rules(rs.drop_last())
    }
}

/// Chars before a char boundary count as all the chars of the prefix.
pub(crate) proof fn lemma_chars_before_boundary(t: Seq<char>, i: int)
    requires
        0 <= i <= t.len(),
    ensures
        chars_before_byte(t, utf8_units(t.take(i)) as int) == i,
    decreases i,
{
    if i > 0 {
        let t1 = t.drop_first();
        lemma_chars_before_boundary(t1, i - 1);
        crate::utf16::lemma_utf8_concat(seq![t[0]], t1.take(i - 1));
        assert(seq![t[0]] + t1.take(i - 1) =~= t.take(i));
        crate::utf16::lemma_single(t[0]);
    } else {
        assert(t.take(0).len() == 0);
    }
}

/// Char index in `cs` of the char boundary at byte `b`: `chars_before_byte`.
pub(crate) fn char_index_at_byte(cs: &Vec<char>, b: usize) -> (k: usize)
    requires
        utf8_units(cs@) <= isize::MAX,
    ensures
        k == chars_before_byte(cs@, b as int),
        k <= cs@.len(),
{
    let ghost s = cs@;
    let mut byte: usize = 0;
    let mut i: usize = 0;
    assert(s.skip(0) =~= s);
    while i < cs.len() && byte < b
        invariant
            s == cs@,
            i <= s.len(),
            byte == utf8_units(s.take(i as int)),
            utf8_units(s) <= isize::MAX,
            chars_before_byte(s, b as int) == i + chars_before_byte(s.skip(i as int), b - byte),
        decreases s.len() - i,
    {
        let c = cs[i];
        assert(s.skip(i as int)[0] == c);
        assert(s.skip(i as int).drop_first() =~= s.skip(i + 1));
        proof {
            lemma_take_next(s, i as int);
            lemma_take_le(s, i + 1);
        }
        byte = byte + char_utf8_len(c);
        i = i + 1;
    }
    assert(chars_before_byte(s.skip(i as int), b - byte) == 0);
    i
}

/// Whether `p` matches `cs` at `at`.
fn matches_here(cs: &Vec<char>, p: &Vec<char>, at: usize) -> (b: bool)
    requires
        at + p@.len() <= cs@.len(),
    ensures
        b == (cs@.subrange(at as int, at + p@.len()) == p@),
{
    let mut i: usize = 0;
    while i < p.len()
        invariant
            at + p.len() <= cs.len(),
            i <= p@.len(),
            cs@.subrange(at as int, at + i) =~= p@.take(i as int),
        decreases p@.len() - i,
    {
        if cs[at + i] != p[i] {
            assert(cs@.subrange(at as int, at + p@.len())[i as int] != p@[i as int]);
            return false;
        }
        assert(cs@.subrange(at as int, at + i + 1) =~= cs@.subrange(at as int, at + i).push(
            cs@[at + i],
        ));
        assert(p@.take(i + 1) =~= p@.take(i as int).push(p@[i as int]));
        i = i + 1;
    }
    assert(p@.take(p@.len() as int) =~= p@);
    true
}

/// What `find_from` finds is an occurrence at or after `i`.
proof fn lemma_find_from(s: Seq<char>, p: Seq<char>, i: int)
    ensures
        find_from(s, p, i) matches Some(k) ==> i <= k && k + p.len() <= s.len()
            && s.subrange(k, k + p.len()) == p,
    decreases s.len() + 1 - i,
{
    if !(i < 0 || i + p.len() > s.len()) && s.subrange(i, i + p.len()) != p {
        lemma_find_from(s, p, i + 1);
    }
}

/// The first index where `p` occurs in `cs`, as `find_from` states.
fn chars_find(cs: &Vec<char>, p: &Vec<char>) -> (r: Option<usize>)
    ensures
        r matches Some(i) ==> find_from(cs@, p@, 0) == Some(i as int),
        r is None ==> find_from(cs@, p@, 0) is None,
{
    if p.len() > cs.len() {
        return None;
    }
    let last = cs.len() - p.len();
    let mut at: usize = 0;
    loop
        invariant
            last == cs@.len() - p@.len(),
            at <= last,
            find_from(cs@, p@, 0) == find_from(cs@, p@, at as int),
        decreases last - at,
    {
        if matches_here(cs, p, at) {
            return Some(at);
        }
        if at == last {
            assert(find_from(cs@, p@, at + 1) is None);
            return None;
        }
        at = at + 1;
    }
}

/// `s` with every occurrence of `from` replaced by `to`, as `replace_all` states.
fn replace_all_chars(s: &Vec<char>, from: &Vec<char>, to: &Vec<char>) -> (r: Vec<char>)
    ensures
        r@ == replace_all(s@, from@, to@),
{
    let mut out: Vec<char> = Vec::new();
    if from.len() == 0 {
        let mut k: usize = 0;
        while k < s.len()
            invariant
                k <= s@.len(),
                out@ =~= s@.take(k as int),
            decreases s@.len() - k,
        {
            out.push(s[k]);
            k = k + 1;
        }
        assert(s@.take(k as int) =~= s@);
        return out;
    }
    let mut i: usize = 0;
    assert(out@ + replace_all(s@.skip(0), from@, to@) =~= replace_all(s@, from@, to@)) by {
        assert(s@.skip(0) =~= s@);
    }
    while i < s.len()
        invariant
            from@.len() > 0,
            i <= s@.len(),
            out@ + replace_all(s@.skip(i as int), from@, to@) == replace_all(s@, from@, to@),
        decreases s@.len() - i,
    {
        let ghost rest = s@.skip(i as int);
        if s.len() - i < from.len() {
            assert(replace_all(rest, from@, to@) == rest);
            let ghost before = out@;
            let mut k = i;
            while k < s.len()
                invariant
                    i <= k <= s@.len(),
                    out@ =~= before + s@.subrange(i as int, k as int),
                decreases s@.len() - k,
            {
                out.push(s[k]);
                k = k + 1;
            }
            assert(s@.subrange(i as int, k as int) =~= rest);
            return out;
        }
        assert(rest.take(from@.len() as int) =~= s@.subrange(i as int, i + from@.len()));
        if matches_here(s, from, i) {
            assert(rest.skip(from@.len() as int) =~= s@.skip(i + from@.len()));
            let mut k: usize = 0;
            let ghost before = out@;
            while k < to.len()
                invariant
                    k <= to@.len(),
                    out@ =~= before + to@.take(k as int),
                decreases to@.len() - k,
            {
                out.push(to[k]);
                k = k + 1;
            }
            assert(to@.take(k as int) =~= to@);
            assert(out@ + replace_all(s@.skip(i + from@.len()), from@, to@) =~= before + (to@
                + replace_all(rest.skip(from@.len() as int), from@, to@)));
            i = i + from.len();
        } else {
            assert(rest.drop_first() =~= s@.skip(i + 1));
            let ghost before = out@;
            out.push(s[i]);
            assert(out@ + replace_all(s@.skip(i + 1), from@, to@) =~= before + (seq![rest[0]]
                + replace_all(rest.drop_first(), from@, to@)));
            i = i + 1;
        }
    }
    assert(s@.skip(i as int).len() == 0);
    assert(out@ + replace_all(s@.skip(i as int), from@, to@) =~= out@);
    out
}

/// Appends `x` in decimal.
fn push_decimal_usize(x: usize, out: &mut Vec<char>)
    ensures
        final(out)@ == old(out)@ + decimal(x as int),
    decreases x,
{
    if x >= 10 {
        push_decimal_usize(x / 10, out);
    }
    out.push(((x % 10) as u8 + 48u8) as char);
    proof {
        if x >= 10 {
            assert(old(out)@ + decimal(x as int) =~= old(out)@ + decimal((x / 10) as int) + seq![
                crate::signature::digit_char((x % 10) as nat),
            ]);
        } else {
            assert(decimal(x as int) =~= seq![crate::signature::digit_char(x as nat)]);
        }
    }
}

/// `rep` with `$j` replaced by the matched groups' texts, as `substitute_groups` states
/// from group 1 on.
fn substitute(rep: &Vec<char>, groups: &Vec<Option<String>>) -> (r: Vec<char>)
    ensures
        r@ == substitute_groups(rep@, groups_view(groups@), 1),
{
    let ghost gs = groups_view(groups@);
    let mut result: Vec<char> = Vec::new();
    let mut k: usize = 0;
    while k < rep.len()
        invariant
            k <= rep@.len(),
            result@ =~= rep@.take(k as int),
        decreases rep@.len() - k,
    {
        result.push(rep[k]);
        k = k + 1;
    }
    assert(rep@.take(k as int) =~= rep@);
    if groups.len() <= 1 {
        return result;
    }
    let mut j: usize = 1;
    while j < groups.len()
        invariant
            1 <= j <= groups@.len(),
            gs == groups_view(groups@),
            substitute_groups(result@, gs, j as nat) == substitute_groups(rep@, gs, 1),
        decreases groups@.len() - j,
    {
        match &groups[j] {
            Some(m) => {
                let mut key: Vec<char> = Vec::new();
                key.push('$');
                push_decimal_usize(j, &mut key);
                let mc = str_chars(m.as_str());
                assert(gs[j as int] == Some(m@));
                result = replace_all_chars(&result, &key, &mc);
            },
            None => {},
        }
        j = j + 1;
    }
    result
}

/// UTF-16 length of `cs[from..to]`.
fn utf16_of_range(cs: &Vec<char>, from: usize, to: usize) -> (n: usize)
    requires
        from <= to <= cs@.len(),
        utf8_units(cs@) <= isize::MAX,
    ensures
        n == utf16_units(cs@.subrange(from as int, to as int)),
{
    let mut n: usize = 0;
    let mut i = from;
    while i < to
        invariant
            from <= i <= to <= cs@.len(),
            n == utf16_units(cs@.subrange(from as int, i as int)),
            utf8_units(cs@) <= isize::MAX,
        decreases to - i,
    {
        proof {
            let sub = cs@.subrange(from as int, i + 1);
            assert(sub.drop_last() =~= cs@.subrange(from as int, i as int));
            assert(cs@.subrange(from as int, to as int) =~= cs@.subrange(from as int, i + 1)
                + cs@.subrange(i + 1, to as int));
            crate::utf16::lemma_utf16_concat(cs@.subrange(from as int, i + 1), cs@.subrange(i + 1, to as int));
            assert(cs@ =~= cs@.subrange(0, from as int) + cs@.subrange(from as int, to as int)
                + cs@.subrange(to as int, cs@.len() as int));
            crate::utf16::lemma_utf8_concat(cs@.subrange(0, from as int) + cs@.subrange(from as int, to as int),
                cs@.subrange(to as int, cs@.len() as int));
            crate::utf16::lemma_utf8_concat(cs@.subrange(0, from as int), cs@.subrange(from as int, to as int));
            crate::utf16::lemma_utf16_le_utf8(cs@.subrange(from as int, to as int));
            assert(utf16_units(sub) <= utf16_units(cs@.subrange(from as int, to as int)));
        }
        n = n + crate::utf16::char_utf16_len(cs[i]);
        i = i + 1;
    }
    n
}

/// The entities after an edit, as `edited_entities` states.
fn edit_entities(es: Vec<TextEntity>, ms: i32, me: i32, diff: i32) -> (r: Vec<TextEntity>)
    ensures
        r@ == edited_entities(es@, ms, me, diff),
{
    let mut out: Vec<TextEntity> = Vec::new();
    let mut i: usize = 0;
    while i < es.len()
        invariant
            i <= es@.len(),
            out@ == edited_entities(es@.take(i as int), ms, me, diff),
        decreases es@.len() - i,
    {
        let e = es[i].duplicate();
        assert(es@.take(i + 1).drop_last() =~= es@.take(i as int));
        let end = e.offset.wrapping_add(e.length);
        if end <= ms || e.offset >= me || (e.offset <= ms && end >= me) {
            if end <= ms {
                out.push(e);
            } else if e.offset >= me {
                out.push(TextEntity { offset: e.offset.wrapping_add(diff), ..e });
            } else {
                out.push(TextEntity { length: e.length.wrapping_add(diff), ..e });
            }
        }
        i = i + 1;
    }
    assert(es@.take(i as int) =~= es@);
    out
}

/// Text and entities after one rule, as `apply_rule` states with `max_iterations`.
fn run_rule(rule: &ReplacementRule, text: Vec<char>, entities: Vec<TextEntity>) -> (r: (
    Vec<char>,
    Vec<TextEntity>,
))
    requires
        usable_rule(rule@),
    ensures
        (r.0@, r.1@) == apply_rule(rule@, text@, entities@, max_iterations(rule@)),
{
    let is_regex = str_eq(rule.rule_type.as_str(), "regex");
    let max: usize = if is_regex {
        100
    } else {
        1000
    };
    let pat = str_chars(rule.pattern.as_str());
    let rep = str_chars(rule.replacement.as_str());
    let keeps_pattern = chars_contain(rep.as_slice(), pat.as_slice());
    let ghost rs = rule@;
    let mut cur = text;
    let mut ents = entities;
    let mut it: usize = 0;
    while it < max
        invariant
            rs == rule@,
            usable_rule(rs),
            is_regex == rs.is_regex,
            max == max_iterations(rs),
            pat@ == rs.pattern,
            rep@ == rs.replacement,
            keeps_pattern == contains_sub(rs.replacement, rs.pattern),
            it <= max,
            apply_rule(rs, cur@, ents@, (max - it) as nat) == apply_rule(
                rs,
                text@,
                entities@,
                max as nat,
            ),
        decreases max - it,
    {
        let s = string_from_chars(cur.as_slice());
        let cs = str_chars(s.as_str());
        let (ms, me) = if is_regex {
            match regex_find(rule.pattern.as_str(), s.as_str()) {
                Some((bs, be)) => {
                    let a = char_index_at_byte(&cs, bs);
                    let b = char_index_at_byte(&cs, be);
                    proof {
                        let (i, j) = choose|i: int, j: int|
                            0 <= i <= j <= cs@.len() && utf8_units(cs@.take(i)) == bs && utf8_units(
                                cs@.take(j),
                            ) == be;
                        lemma_chars_before_boundary(cs@, i);
                        lemma_chars_before_boundary(cs@, j);
                    }
                    (a, b)
                },
                None => {
                    return (cs, ents);
                },
            }
        } else {
            match chars_find(&cs, &pat) {
                Some(p) => {
                    proof {
                        lemma_find_from(cs@, pat@, 0);
                    }
                    (p, p + pat.len())
                },
                None => {
                    return (cs, ents);
                },
            }
        };
        assert(rule_match(rs, cs@) == Some((ms as int, me as int)));
        let replacement = if is_regex {
            let sub = string_from_range(cs.as_slice(), ms, me);
            match regex_groups(rule.pattern.as_str(), sub.as_str()) {
                Some(groups) => substitute(&rep, &groups),
                None => str_chars(rule.replacement.as_str()),
            }
        } else {
            str_chars(rule.replacement.as_str())
        };
        assert(replacement@ == replacement_for(rs, cs@, ms as int, me as int));
        let old16 = utf16_of_range(&cs, ms, me);
        let rep_str = string_from_chars(replacement.as_slice());
        let rep_chars = str_chars(rep_str.as_str());
        let new16 = chars_utf16_len(rep_chars.as_slice());
        let diff = (#[verifier::truncate] (new16 as i32)).wrapping_sub(
            #[verifier::truncate] (old16 as i32),
        );
        let pre16 = utf16_of_range(&cs, 0, ms);
        assert(cs@.subrange(0, ms as int) =~= cs@.take(ms as int));
        let ms16 = #[verifier::truncate] (pre16 as i32);
        let me16 = ms16.wrapping_add(#[verifier::truncate] (old16 as i32));
        ents = edit_entities(ents, ms16, me16, diff);
        let mut next: Vec<char> = Vec::new();
        let mut k: usize = 0;
        while k < ms
            invariant
                ms <= me <= cs@.len(),
                k <= ms,
                next@ =~= cs@.take(k as int),
            decreases ms - k,
        {
            next.push(cs[k]);
            k = k + 1;
        }
        let mut k: usize = 0;
        while k < rep_chars.len()
            invariant
                k <= rep_chars@.len(),
                next@ =~= cs@.take(ms as int) + rep_chars@.take(k as int),
            decreases rep_chars@.len() - k,
        {
            next.push(rep_chars[k]);
            k = k + 1;
        }
        let mut k = me;
        while k < cs.len()
            invariant
                me <= k <= cs@.len(),
                next@ =~= cs@.take(ms as int) + rep_chars@ + cs@.subrange(me as int, k as int),
            decreases cs@.len() - k,
        {
            next.push(cs[k]);
            k = k + 1;
        }
        assert(rep_chars@.take(rep_chars@.len() as int) =~= rep_chars@);
        assert(cs@.subrange(me as int, cs@.len() as int) =~= cs@.skip(me as int));
        cur = next;
        it = it + 1;
        if !is_regex && keeps_pattern {
            return (cur, ents);
        }
    }
    (cur, ents)
}

/// The replacement rules in use.
pub struct TextReplacer {
    rules: Vec<ReplacementRule>,
}

impl TextReplacer {
    /// Every rule usable.
    pub closed spec fn wf(&self) -> bool {
        forall|i: int| 0 <= i < self.rules@.len() ==> usable_rule(#[trigger] self.rules@[i]@)
    }

    /// The rules as mathematical values.
    pub closed spec fn spec_rules(&self) -> Seq<RuleSpec> {
        rule_views(self.rules@)
    }

    /// No rules.
    pub fn new() -> (r: Self)
        ensures
            r.wf(),
            r.spec_rules() == Seq::<RuleSpec>::empty(),
    {
        let r = TextReplacer { rules: Vec::new() };
        assert(r.spec_rules() =~= Seq::<RuleSpec>::empty());
        r
    }

    /// Takes the usable rules of `rules`: those with a non-empty pattern whose regular
    /// expression, for a regex rule, compiles.
    pub fn set_rules(&mut self, rules: Vec<ReplacementRule>)
        ensures
            final(self).wf(),
            final(self).spec_rules() == usable_rules(rule_views(rules@)),
    {
        let ghost all = rule_views(rules@);
        let mut kept: Vec<ReplacementRule> = Vec::new();
        let mut i: usize = 0;
        while i < rules.len()
            invariant
                i <= rules@.len(),
                all == rule_views(rules@),
                forall|k: int| 0 <= k < kept@.len() ==> usable_rule(#[trigger] kept@[k]@),
                rule_views(kept@) == usable_rules(all.take(i as int)),
            decreases rules@.len() - i,
        {
            let rule = &rules[i];
            assert(all.take(i + 1).drop_last() =~= all.take(i as int));
            assert(all[i as int] == rule@);
            let pat = str_chars(rule.pattern.as_str());
            let nonempty = pat.len() > 0;
            let is_regex = str_eq(rule.rule_type.as_str(), "regex");
            let usable = nonempty && (!is_regex || regex_compiles(rule.pattern.as_str()));
            if usable {
                let ghost kb = rule_views(kept@);
                kept.push(rule.dup_rule());
                assert(rule_views(kept@) =~= kb.push(rule@));
            }
            i = i + 1;
        }
        assert(all.take(i as int) =~= all);
        self.rules = kept;
    }

    /// Applies every rule in order to `text`, moving or dropping entities to follow each
    /// replacement, as `apply_rules` states.
    pub fn process_with_entities(&self, text: &str, entities: Vec<TextEntity>) -> (r: (
        String,
        Vec<TextEntity>,
    ))
        requires
            self.wf(),
        ensures
            (r.0@, r.1@) == apply_rules(self.spec_rules(), text@, entities@),
    {
        let mut cur = str_chars(text);
        let mut ents = entities;
        let mut i: usize = 0;
        while i < self.rules.len()
            invariant
                self.wf(),
                i <= self.rules@.len(),
                (cur@, ents@) == apply_rules(self.spec_rules().take(i as int), text@, entities@),
            decreases self.rules@.len() - i,
        {
            assert(self.spec_rules().take(i + 1).drop_last() =~= self.spec_rules().take(i as int));
            assert(usable_rule(self.rules@[i as int]@));
            let (c, e) = run_rule(&self.rules[i], cur, ents);
            cur = c;
            ents = e;
            i = i + 1;
        }
        assert(self.spec_rules().take(i as int) =~= self.spec_rules());
        (string_from_chars(cur.as_slice()), ents)
    }
}

impl ReplacementRule {
    fn dup_rule(&self) -> (r: Self)
        ensures
            r@ == self@,
    {
        ReplacementRule {
            rule_type: self.rule_type.clone(),
            pattern: self.pattern.clone(),
            replacement: self.replacement.clone(),
        }
    }
}

/// An entity that survives an edit is among the edited entities, moved.
proof fn lemma_edited_contains(es: Seq<TextEntity>, ms: i32, me: i32, diff: i32, i: int)
    requires
        0 <= i < es.len(),
        survives_edit(es[i], ms, me),
    ensures
        edited_entities(es, ms, me, diff).contains(moved_by_edit(es[i], ms, me, diff)),
    decreases es.len(),
{
    let prev = edited_entities(es.drop_last(), ms, me, diff);
    let target = moved_by_edit(es[i], ms, me, diff);
    if i == es.len() - 1 {
        assert(prev.push(target)[prev.len() as int] == target);
    } else {
        assert(es.drop_last()[i] == es[i]);
        lemma_edited_contains(es.drop_last(), ms, me, diff, i);
        let j = choose|j: int| 0 <= j < prev.len() && prev[j] == target;
        if survives_edit(es.last(), ms, me) {
            assert(prev.push(moved_by_edit(es.last(), ms, me, diff))[j] == target);
        }
    }
}

/// After an edit of the non-empty UTF-16 range `ms..me` that changes the length by `diff`:
/// an entity ending before the range is kept as it was; an entity starting after it moves
/// by `diff`; an entity covering it stays at its offset and its length changes by `diff`,
/// so it still covers the edited text.
pub proof fn law_entities_follow_edit(es: Seq<TextEntity>, ms: i32, me: i32, diff: i32, i: int)
    requires
        0 <= i < es.len(),
        ms < me,
        0 <= es[i].length,
        es[i].offset + es[i].length <= i32::MAX,
    ensures
        es[i].offset + es[i].length <= ms ==> edited_entities(es, ms, me, diff).contains(es[i]),
        es[i].offset >= me && i32::MIN <= es[i].offset + diff <= i32::MAX ==> edited_entities(
            es,
            ms,
            me,
            diff,
        ).contains(TextEntity { offset: (es[i].offset + diff) as i32, ..es[i] }),
        es[i].offset <= ms && me <= es[i].offset + es[i].length && i32::MIN <= es[i].length
            + diff <= i32::MAX ==> edited_entities(es, ms, me, diff).contains(
            TextEntity { length: (es[i].length + diff) as i32, ..es[i] },
        ),
{
    let e = es[i];
    assert(wrapped_end(e) == e.offset + e.length);
    if survives_edit(e, ms, me) {
        lemma_edited_contains(es, ms, me, diff, i);
    }
}

/// When a rule replaces its first match, an entity covering the match stays at its offset
/// and its length changes by the change in UTF-16 length, new minus old.
pub proof fn law_replacement_stretches_covering_entity(
    r: RuleSpec,
    t: Seq<char>,
    es: Seq<TextEntity>,
    s: int,
    e: int,
    i: int,
)
    requires
        rule_match(r, t) == Some((s, e)),
        0 <= s < e <= t.len(),
        utf16_units(t.take(e)) <= i32::MAX,
        utf16_units(replacement_for(r, t, s, e)) <= i32::MAX,
        0 <= i < es.len(),
        es[i].offset <= utf16_units(t.take(s)),
        utf16_units(t.take(e)) <= es[i].offset + es[i].length <= i32::MAX,
        i32::MIN <= es[i].length + utf16_units(replacement_for(r, t, s, e)) - utf16_units(
            t.subrange(s, e),
        ) <= i32::MAX,
    ensures
        apply_rule(r, t, es, 1).1.contains(
            TextEntity {
                length: (es[i].length + utf16_units(replacement_for(r, t, s, e)) - utf16_units(
                    t.subrange(s, e),
                )) as i32,
                ..es[i]
            },
        ),
{
    let rep = replacement_for(r, t, s, e);
    let old16 = utf16_units(t.subrange(s, e));
    let new16 = utf16_units(rep);
    assert(t.take(s) + t.subrange(s, e) =~= t.take(e));
    crate::utf16::lemma_utf16_concat(t.take(s), t.subrange(s, e));
    crate::utf16::lemma_utf16_le_utf8(t.subrange(s, e));
    let diff = (#[verifier::truncate] (new16 as i32)).wrapping_sub(
        #[verifier::truncate] (old16 as i32),
    );
    assert(diff == new16 - old16);
    let ms = utf16_units(t.take(s)) as i32;
    let me = ms.wrapping_add(old16 as i32);
    assert(me == utf16_units(t.take(e)));
    law_entities_follow_edit(es, ms, me, diff, i);
    let t2 = t.take(s) + rep + t.skip(e);
    let es2 = edited_entities(es, ms, me, diff);
    assert(apply_rule(r, t2, es2, 0) == (t2, es2));
    assert(apply_rule(r, t, es, 1).1 == es2);
}

} // verus!
