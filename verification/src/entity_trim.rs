//! Shortening over-long captions: the text under code, pre and blockquote entities is
//! removed first, then the rest is cut by paragraph.
use crate::model::{copy_entities, entities_fit, entity_end, EntityType, TextEntity};
use crate::text::{paragraph_truncation, sat_sub, truncate_by_paragraph};
use crate::utf16::{
    char_utf16_len, lemma_take_le, lemma_take_next, lemma_utf16_le_utf8, str_chars,
    string_from_chars, utf16_len, utf16_units, utf8_units,
};
use vstd::prelude::*;

verus! {

/// Entity kinds whose text is removed from an over-long caption.
pub open spec fn is_trim_target(t: EntityType) -> bool {
    t == EntityType::Code || t == EntityType::Pre || t == EntityType::Blockquote
}

/// `a + b` clamped to the `i32` range.
pub open spec fn sat_add_i32(a: int, b: int) -> int {
    if a + b > i32::MAX {
        i32::MAX as int
    } else if a + b < i32::MIN {
        i32::MIN as int
    } else {
        a + b
    }
}

/// The UTF-16 range `[start, end)` an entity covers, when it is not empty: the start
/// clamped to 0, the end `offset + length` saturated to `i32`.
pub open spec fn entity_range(e: TextEntity) -> Option<(i32, i32)> {
    if e.length <= 0 {
        None
    } else {
        let start = if e.offset >= 0 {
            e.offset as int
        } else {
            0
        };
        let end = sat_add_i32(e.offset as int, e.length as int);
        if end <= start {
            None
        } else {
            Some((start as i32, end as i32))
        }
    }
}

/// The ranges of the target entities of `es`, in order.
pub open spec fn target_ranges(es: Seq<TextEntity>) -> Seq<(i32, i32)>
    decreases es.len(),
{
    if es.len() == 0 {
        Seq::empty()
    } else {
        let prev = target_ranges(es.drop_last());
        let e = es.last();
        if is_trim_target(e.entity_type) {
            match entity_range(e) {
                Some(r) => prev.push(r),
                None => prev,
            }
        } else {
            prev
        }
    }
}

/// Inserts `r` into `sorted` after every range that starts no later than it.
pub open spec fn insert_by_start(sorted: Seq<(i32, i32)>, r: (i32, i32)) -> Seq<(i32, i32)>
    decreases sorted.len(),
{
    if sorted.len() == 0 {
        seq![r]
    } else if sorted.last().0 <= r.0 {
        sorted.push(r)
    } else {
        insert_by_start(sorted.drop_last(), r).push(sorted.last())
    }
}

/// The ranges stably sorted by start.
pub open spec fn sort_by_start(rs: Seq<(i32, i32)>) -> Seq<(i32, i32)>
    decreases rs.len(),
{
    if rs.len() == 0 {
        Seq::empty()
    } else {
        insert_by_start(sort_by_start(rs.drop_last()), rs.last())
    }
}

/// Ranges sorted by start, merged where they overlap or touch.
pub open spec fn merge_sorted(rs: Seq<(i32, i32)>) -> Seq<(i32, i32)>
    decreases rs.len(),
{
    if rs.len() == 0 {
        Seq::empty()
    } else {
        let m = merge_sorted(rs.drop_last());
        let r = rs.last();
        if m.len() > 0 && r.0 <= m.last().1 {
            if r.1 > m.last().1 {
                m.update(m.len() - 1, (m.last().0, r.1))
            } else {
                m
            }
        } else {
            m.push(r)
        }
    }
}

/// The disjoint UTF-16 ranges removed from the caption.
pub open spec fn removed_ranges(es: Seq<TextEntity>) -> Seq<(i32, i32)> {
    merge_sorted(sort_by_start(target_ranges(es)))
}

/// A char whose UTF-16 span ends at `end` lies in a removed range: its last unit is covered.
pub open spec fn end_in_ranges(m: Seq<(i32, i32)>, end: int) -> bool {
    exists|j: int| 0 <= j < m.len() && m[j].0 < end && end <= m[j].1
}

/// The text with every char whose last UTF-16 unit is covered by `m` removed.
pub open spec fn strip_ranges(s: Seq<char>, m: Seq<(i32, i32)>) -> Seq<char>
    decreases s.len(),
{
    if s.len() == 0 {
        Seq::empty()
    } else {
        let prev = strip_ranges(s.drop_last(), m);
        if end_in_ranges(m, utf16_units(s) as int) {
            prev
        } else {
            prev.push(s.last())
        }
    }
}

/// An entity overlaps a removed range.
pub open spec fn overlaps_ranges(m: Seq<(i32, i32)>, e: TextEntity) -> bool {
    exists|j: int| 0 <= j < m.len() && e.offset < m[j].1 && entity_end(e) > m[j].0
}

/// Total length of the leading ranges of `m` that end at or before `offset`, accumulated
/// with `i32` saturation onto `acc`.
pub open spec fn shift_before(m: Seq<(i32, i32)>, offset: int, acc: int) -> int
    decreases m.len(),
{
    if m.len() == 0 {
        acc
    } else if m[0].1 <= offset {
        shift_before(m.drop_first(), offset, sat_add_i32(acc, m[0].1 - m[0].0))
    } else {
        acc
    }
}

/// An entity moved left past the removed ranges before it.
pub open spec fn shifted_entity(m: Seq<(i32, i32)>, e: TextEntity) -> TextEntity {
    let shift = shift_before(m, e.offset as int, 0);
    if shift > 0 {
        TextEntity { offset: sat_add_i32(e.offset as int, -shift) as i32, ..e }
    } else {
        e
    }
}

/// The entities that survive removal, moved to their new offsets.
pub open spec fn kept_entities(es: Seq<TextEntity>, m: Seq<(i32, i32)>) -> Seq<TextEntity>
    decreases es.len(),
{
    if es.len() == 0 {
        Seq::empty()
    } else {
        let prev = kept_entities(es.drop_last(), m);
        let e = es.last();
        if is_trim_target(e.entity_type) || overlaps_ranges(m, e) {
            prev
        } else {
            prev.push(shifted_entity(m, e))
        }
    }
}

/// Entities ending within the first `len` UTF-16 units.
pub open spec fn entities_within(es: Seq<TextEntity>, len: int) -> Seq<TextEntity> {
    es.filter(ends_within(len))
}

/// The entity ends within the first `len` UTF-16 units.
pub open spec fn ends_within(len: int) -> spec_fn(TextEntity) -> bool {
    |e: TextEntity| entity_end(e) <= len
}

/// Cuts `s` by paragraph to fit `limit` with room for header, footer and an ellipsis,
/// and keeps the entities inside the result.
pub open spec fn cut_to_limit(
    s: Seq<char>,
    es: Seq<TextEntity>,
    limit: int,
    header: int,
    footer: int,
) -> (Seq<char>, Seq<TextEntity>) {
    let available = sat_sub(sat_sub(sat_sub(limit, header), footer), 3);
    let t = if available > 0 {
        paragraph_truncation(s, available)
    } else {
        paragraph_truncation(s, sat_sub(limit, 3))
    };
    (t, entities_within(es, (utf16_units(t) as i32) as int))
}

/// What `trim_long_entities_if_needed` returns.
pub open spec fn trimmed(
    s: Seq<char>,
    es: Seq<TextEntity>,
    limit: int,
    header: int,
    footer: int,
) -> (Seq<char>, Seq<TextEntity>) {
    if utf16_units(s) <= limit {
        (s, es)
    } else if !(exists|i: int| 0 <= i < es.len() && is_trim_target(#[trigger] es[i].entity_type)) {
        cut_to_limit(s, es, limit, header, footer)
    } else {
        let m = removed_ranges(es);
        let rest = strip_ranges(s, m);
        let kept = kept_entities(es, m);
        if utf16_units(rest) > limit {
            cut_to_limit(rest, kept, limit, header, footer)
        } else {
            (rest, kept)
        }
    }
}

/// The entities of `es` that end within `len`.
fn filter_entities_within(es: &[TextEntity], len: i32) -> (r: Vec<TextEntity>)
    ensures
        r@ == entities_within(es@, len as int),
{
    let ghost pred = ends_within(len as int);
    let mut r: Vec<TextEntity> = Vec::new();
    let mut i: usize = 0;
    while i < es.len()
        invariant
            i <= es@.len(),
            pred == ends_within(len as int),
            r@ == es@.take(i as int).filter(pred),
        decreases es@.len() - i,
    {
        proof {
            assert(es@.take(i + 1) =~= es@.take(i as int).push(es@[i as int]));
            es@.take(i as int).lemma_filter_push(es@[i as int], pred);
            assert(pred(es@[i as int]) == (entity_end(es@[i as int]) <= len));
        }
        if es[i].offset as i64 + es[i].length as i64 <= len as i64 {
            r.push(es[i].duplicate());
        }
        i = i + 1;
    }
    assert(es@.take(es@.len() as int) =~= es@);
    r
}

fn sat_sub_usize(a: usize, b: usize) -> (r: usize)
    ensures
        r == sat_sub(a as int, b as int),
{
    if a >= b {
        a - b
    } else {
        0
    }
}

/// `cut_to_limit` on a text and its entities.
fn cut_text_to_limit(
    text: &str,
    es: &[TextEntity],
    limit: usize,
    header_utf16_len: usize,
    footer_utf16_len: usize,
) -> (r: (String, Vec<TextEntity>))
    ensures
        (r.0@, r.1@) == cut_to_limit(
            text@,
            es@,
            limit as int,
            header_utf16_len as int,
            footer_utf16_len as int,
        ),
{
    let available = sat_sub_usize(
        sat_sub_usize(sat_sub_usize(limit, header_utf16_len), footer_utf16_len),
        3,
    );
    let truncated = if available > 0 {
        truncate_by_paragraph(text, available)
    } else {
        truncate_by_paragraph(text, sat_sub_usize(limit, 3))
    };
    let truncated_len = utf16_len(truncated.as_str()) as i32;
    let kept = filter_entities_within(es, truncated_len);
    (truncated, kept)
}

fn is_target_kind(t: EntityType) -> (b: bool)
    ensures
        b == is_trim_target(t),
{
    match t {
        EntityType::Code | EntityType::Pre | EntityType::Blockquote => true,
        _ => false,
    }
}

/// The range of one entity, as `entity_range` states.
fn range_of(e: &TextEntity) -> (r: Option<(i32, i32)>)
    ensures
        r == entity_range(*e),
{
    if e.length <= 0 {
        return None;
    }
    let start: i32 = if e.offset >= 0 {
        e.offset
    } else {
        0
    };
    let sum: i64 = e.offset as i64 + e.length as i64;
    let end: i32 = if sum > i32::MAX as i64 {
        i32::MAX
    } else if sum < i32::MIN as i64 {
        i32::MIN
    } else {
        sum as i32
    };
    if end <= start {
        None
    } else {
        Some((start, end))
    }
}

/// Ranges of the target entities, in order.
fn collect_target_ranges(es: &[TextEntity]) -> (r: Vec<(i32, i32)>)
    ensures
        r@ == target_ranges(es@),
{
    let mut r: Vec<(i32, i32)> = Vec::new();
    let mut i: usize = 0;
    while i < es.len()
        invariant
            i <= es@.len(),
            r@ == target_ranges(es@.take(i as int)),
        decreases es@.len() - i,
    {
        assert(es@.take(i + 1).drop_last() =~= es@.take(i as int));
        if is_target_kind(es[i].entity_type) {
            match range_of(&es[i]) {
                Some(rg) => r.push(rg),
                None => {},
            }
        }
        i = i + 1;
    }
    assert(es@.take(es@.len() as int) =~= es@);
    r
}

/// Stable insertion sort of ranges by start.
fn sort_ranges(rs: &[(i32, i32)]) -> (r: Vec<(i32, i32)>)
    ensures
        r@ == sort_by_start(rs@),
{
    let mut r: Vec<(i32, i32)> = Vec::new();
    let mut i: usize = 0;
    while i < rs.len()
        invariant
            i <= rs@.len(),
            r@ == sort_by_start(rs@.take(i as int)),
        decreases rs@.len() - i,
    {
        assert(rs@.take(i + 1).drop_last() =~= rs@.take(i as int));
        let x = rs[i];
        assert(rs@.take(i + 1).last() == x);
        let ghost before = r@;
        r.push(x);
        let mut j: usize = r.len() - 1;
        assert(before.take(before.len() as int) =~= before);
        assert(before.skip(before.len() as int) =~= Seq::<(i32, i32)>::empty());
        assert(r@.take(j as int) =~= before);
        // r = before[..j] ++ [x] ++ before[j..], with insert_by_start(before[..j], x) still to place.
        while j > 0 && r[j - 1].0 > x.0
            invariant
                0 <= j < r@.len(),
                r@.len() == before.len() + 1,
                r@[j as int] == x,
                r@.take(j as int) =~= before.take(j as int),
                r@.skip(j + 1) =~= before.skip(j as int),
                insert_by_start(before, x) =~= insert_by_start(before.take(j as int), x)
                    + before.skip(j as int),
            decreases j,
        {
            let y = r[j - 1];
            proof {
                assert(before.take(j as int).last() == y);
                assert(before.take(j as int).drop_last() =~= before.take(j - 1));
                assert(insert_by_start(before.take(j as int), x) =~= insert_by_start(
                    before.take(j - 1),
                    x,
                ).push(y));
                assert(before.skip(j - 1) =~= seq![y] + before.skip(j as int));
            }
            r.set(j - 1, x);
            r.set(j, y);
            j = j - 1;
        }
        proof {
            if j > 0 {
                assert(before.take(j as int).last() == r@[j - 1]);
                assert(insert_by_start(before.take(j as int), x) =~= before.take(j as int).push(
                    x,
                ));
            } else {
                assert(before.take(0) =~= Seq::<(i32, i32)>::empty());
            }
            assert(r@ =~= before.take(j as int).push(x) + before.skip(j as int));
        }
        i = i + 1;
    }
    assert(rs@.take(rs@.len() as int) =~= rs@);
    r
}

/// Merges sorted ranges that overlap or touch.
fn merge_ranges(rs: &[(i32, i32)]) -> (r: Vec<(i32, i32)>)
    ensures
        r@ == merge_sorted(rs@),
{
    let mut r: Vec<(i32, i32)> = Vec::new();
    let mut i: usize = 0;
    while i < rs.len()
        invariant
            i <= rs@.len(),
            r@ == merge_sorted(rs@.take(i as int)),
        decreases rs@.len() - i,
    {
        assert(rs@.take(i + 1).drop_last() =~= rs@.take(i as int));
        let (start, end) = rs[i];
        let n = r.len();
        if n > 0 && start <= r[n - 1].1 {
            if end > r[n - 1].1 {
                let first = r[n - 1].0;
                r.set(n - 1, (first, end));
            }
        } else {
            r.push((start, end));
        }
        i = i + 1;
    }
    assert(rs@.take(rs@.len() as int) =~= rs@);
    r
}

/// Whether some range of `m` holds the UTF-16 position just before `end`.
fn covers_end(m: &[(i32, i32)], end: usize) -> (b: bool)
    ensures
        b == end_in_ranges(m@, end as int),
{
    let mut j: usize = 0;
    while j < m.len()
        invariant
            j <= m@.len(),
            forall|k: int| 0 <= k < j ==> !(m@[k].0 < end && end <= m@[k].1),
        decreases m@.len() - j,
    {
        let (a, b) = m[j];
        let a_before = a < 0 || (a as usize) < end;
        let b_after = b >= 0 && end <= (b as usize);
        if a_before && b_after {
            return true;
        }
        j = j + 1;
    }
    false
}

/// The chars of `text` not covered by `m`.
fn strip_text(text: &str, m: &[(i32, i32)]) -> (r: String)
    ensures
        r@ == strip_ranges(text@, m@),
{
    let cs = str_chars(text);
    let ghost s = cs@;
    let mut out: Vec<char> = Vec::new();
    let mut units: usize = 0;
    let mut i: usize = 0;
    while i < cs.len()
        invariant
            s == cs@,
            i <= s.len(),
            utf8_units(s) <= isize::MAX,
            units == utf16_units(s.take(i as int)),
            out@ == strip_ranges(s.take(i as int), m@),
        decreases s.len() - i,
    {
        proof {
            lemma_take_next(s, i as int);
            lemma_take_le(s, i + 1);
            lemma_utf16_le_utf8(s);
            assert(s.take(i + 1).drop_last() =~= s.take(i as int));
            assert(s.take(i + 1).last() == s[i as int]);
        }
        units = units + char_utf16_len(cs[i]);
        if !covers_end(m, units) {
            out.push(cs[i]);
        }
        i = i + 1;
    }
    assert(s.take(s.len() as int) =~= s);
    string_from_chars(out.as_slice())
}

/// Whether `e` overlaps a range of `m`.
fn overlaps_any(m: &[(i32, i32)], e: &TextEntity) -> (b: bool)
    ensures
        b == overlaps_ranges(m@, *e),
{
    let ent_end: i64 = e.offset as i64 + e.length as i64;
    let mut j: usize = 0;
    while j < m.len()
        invariant
            j <= m@.len(),
            ent_end == entity_end(*e),
            forall|k: int| 0 <= k < j ==> !(e.offset < m@[k].1 && ent_end > m@[k].0),
        decreases m@.len() - j,
    {
        let (a, b) = m[j];
        if e.offset < b && ent_end > a as i64 {
            return true;
        }
        j = j + 1;
    }
    false
}

fn sat_add(a: i32, b: i32) -> (r: i32)
    ensures
        r == sat_add_i32(a as int, b as int),
{
    let s: i64 = a as i64 + b as i64;
    if s > i32::MAX as i64 {
        i32::MAX
    } else if s < i32::MIN as i64 {
        i32::MIN
    } else {
        s as i32
    }
}

fn sat_add_wide(a: i32, d: i64) -> (r: i32)
    requires
        -0x1_0000_0000 <= d <= 0x1_0000_0000,
    ensures
        r == sat_add_i32(a as int, d as int),
{
    let s: i64 = a as i64 + d;
    if s > i32::MAX as i64 {
        i32::MAX
    } else if s < i32::MIN as i64 {
        i32::MIN
    } else {
        s as i32
    }
}

/// `e` moved left past the ranges of `m` that end before it.
fn shift_entity(m: &[(i32, i32)], e: TextEntity) -> (r: TextEntity)
    ensures
        r == shifted_entity(m@, e),
{
    let mut shift: i32 = 0;
    let mut j: usize = 0;
    assert(m@.skip(0) =~= m@);
    while j < m.len() && m[j].1 <= e.offset
        invariant
            j <= m@.len(),
            shift_before(m@, e.offset as int, 0) == shift_before(
                m@.skip(j as int),
                e.offset as int,
                shift as int,
            ),
        decreases m@.len() - j,
    {
        assert(m@.skip(j as int).drop_first() =~= m@.skip(j + 1));
        let (a, b) = m[j];
        shift = sat_add_wide(shift, b as i64 - a as i64);
        j = j + 1;
    }
    if shift > 0 {
        TextEntity { offset: sat_add(e.offset, -shift), ..e }
    } else {
        e
    }
}

/// The entities that survive the removal of `m`, shifted.
fn keep_entities(es: &[TextEntity], m: &[(i32, i32)]) -> (r: Vec<TextEntity>)
    ensures
        r@ == kept_entities(es@, m@),
{
    let mut r: Vec<TextEntity> = Vec::new();
    let mut i: usize = 0;
    while i < es.len()
        invariant
            i <= es@.len(),
            r@ == kept_entities(es@.take(i as int), m@),
        decreases es@.len() - i,
    {
        assert(es@.take(i + 1).drop_last() =~= es@.take(i as int));
        let e = es[i].duplicate();
        if !is_target_kind(e.entity_type) && !overlaps_any(m, &e) {
            r.push(shift_entity(m, e));
        }
        i = i + 1;
    }
    assert(es@.take(es@.len() as int) =~= es@);
    r
}

/// Shortens a caption longer than `limit` UTF-16 units: removes the text under code,
/// pre and blockquote entities (dropping those entities, any entity overlapping the
/// removed ranges, and moving the rest left), then, when still too long, cuts it by
/// paragraph to leave room for a header, a footer and an ellipsis.
pub fn trim_long_entities_if_needed(
    text: &str,
    entities: &[TextEntity],
    limit: usize,
    header_utf16_len: usize,
    footer_utf16_len: usize,
) -> (r: (String, Vec<TextEntity>))
    requires
        crate::utf16::utf16_units(text@) > limit ==> entities_fit(entities@),
    ensures
        (r.0@, r.1@) == trimmed(
            text@,
            entities@,
            limit as int,
            header_utf16_len as int,
            footer_utf16_len as int,
        ),
{
    let current_len = utf16_len(text);
    if current_len <= limit {
        let t = string_from_chars(str_chars(text).as_slice());
        return (t, copy_entities(entities));
    }
    let mut has_target = false;
    let mut i: usize = 0;
    while i < entities.len()
        invariant
            i <= entities@.len(),
            has_target == exists|k: int|
                0 <= k < i && is_trim_target(#[trigger] entities@[k].entity_type),
        decreases entities@.len() - i,
    {
        if is_target_kind(entities[i].entity_type) {
            has_target = true;
        }
        i = i + 1;
    }
    if !has_target {
        return cut_text_to_limit(text, entities, limit, header_utf16_len, footer_utf16_len);
    }
    let ranges = collect_target_ranges(entities);
    let sorted = sort_ranges(ranges.as_slice());
    let merged = merge_ranges(sorted.as_slice());
    let result = strip_text(text, merged.as_slice());
    let remaining = keep_entities(entities, merged.as_slice());
    if utf16_len(result.as_str()) > limit {
        cut_text_to_limit(
            result.as_str(),
            remaining.as_slice(),
            limit,
            header_utf16_len,
            footer_utf16_len,
        )
    } else {
        (result, remaining)
    }
}

/// Whether a text is long enough (over 1024 UTF-16 units) to need trimming.
pub fn should_trim_long_entities(text: &str) -> (r: bool)
    ensures
        r == (crate::utf16::utf16_units(text@) > 1024),
{
    utf16_len(text) > 1024
}

/// Whether `offset + length` fits in `i32` for every entity, as `entities_fit` states.
pub fn entity_ends_fit(es: &[TextEntity]) -> (r: bool)
    ensures
        r == entities_fit(es@),
{
    let mut i: usize = 0;
    while i < es.len()
        invariant
            i <= es@.len(),
            forall|j: int| 0 <= j < i ==> i32::MIN <= #[trigger] entity_end(es@[j]) <= i32::MAX,
        decreases es@.len() - i,
    {
        let end = es[i].offset as i64 + es[i].length as i64;
        if end < i32::MIN as i64 || end > i32::MAX as i64 {
            assert(!(i32::MIN <= entity_end(es@[i as int]) <= i32::MAX));
            return false;
        }
        i = i + 1;
    }
    true
}

/// Each entity kept within a length is one of the given entities.
proof fn lemma_within_from(es: Seq<TextEntity>, len: int, k: int)
    requires
        0 <= k < entities_within(es, len).len(),
    ensures
        es.contains(entities_within(es, len)[k]),
{
    let f = entities_within(es, len);
    assert(f.contains(f[k]));
    es.lemma_filter_contains_rev(ends_within(len), f[k]);
}

/// No entity that survives removal is a removed kind.
proof fn lemma_kept_not_targets(es: Seq<TextEntity>, m: Seq<(i32, i32)>)
    ensures
        forall|k: int|
            0 <= k < kept_entities(es, m).len() ==> !is_trim_target(
                #[trigger] kept_entities(es, m)[k].entity_type,
            ),
    decreases es.len(),
{
    if es.len() > 0 {
        lemma_kept_not_targets(es.drop_last(), m);
    }
}

/// A caption over the limit comes back without any code, preformatted or quote entity:
/// their text is taken out, or, when none is there, none can be left.
pub proof fn law_trimmed_caption_has_no_code_blocks(
    s: Seq<char>,
    es: Seq<TextEntity>,
    limit: int,
    header: int,
    footer: int,
)
    requires
        utf16_units(s) > limit,
    ensures
        forall|k: int|
            0 <= k < trimmed(s, es, limit, header, footer).1.len() ==> {
                let t = (#[trigger] trimmed(s, es, limit, header, footer).1[k]).entity_type;
                t != EntityType::Code && t != EntityType::Pre && t != EntityType::Blockquote
            },
{
    let r = trimmed(s, es, limit, header, footer);
    assert forall|k: int| 0 <= k < r.1.len() implies !is_trim_target(r.1[k].entity_type) by {
        if !(exists|i: int| 0 <= i < es.len() && is_trim_target(#[trigger] es[i].entity_type)) {
            let c = cut_to_limit(s, es, limit, header, footer);
            lemma_within_from(es, (utf16_units(c.0) as i32) as int, k);
            let i = choose|i: int| 0 <= i < es.len() && es[i] == r.1[k];
            assert(!is_trim_target(es[i].entity_type));
        } else {
            let m = removed_ranges(es);
            let rest = strip_ranges(s, m);
            let kept = kept_entities(es, m);
            lemma_kept_not_targets(es, m);
            if utf16_units(rest) > limit {
                let c = cut_to_limit(rest, kept, limit, header, footer);
                lemma_within_from(kept, (utf16_units(c.0) as i32) as int, k);
                let i = choose|i: int| 0 <= i < kept.len() && kept[i] == r.1[k];
                assert(!is_trim_target(kept[i].entity_type));
            }
        }
    }
}

} // verus!
