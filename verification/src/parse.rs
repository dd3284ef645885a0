//! Decimal integers read from text as `str::parse` reads them.
use crate::utf16::str_chars;
use vstd::prelude::*;

verus! {

/// Whether `d` is a non-empty run of ASCII digits.
pub open spec fn all_digits(d: Seq<char>) -> bool {
    d.len() > 0 && forall|i: int| 0 <= i < d.len() ==> '0' <= #[trigger] d[i] <= '9'
}

/// The value of a run of ASCII digits.
pub open spec fn digits_value(d: Seq<char>) -> int
    decreases d.len(),
{
    if d.len() == 0 {
        0
    } else {
        digits_value(d.drop_last()) * 10 + (d.last() as int - '0' as int)
    }
}

/// `s` as `i64::from_str` reads it: an optional `+` or `-`, then digits, in range.
pub open spec fn parsed_i64(s: Seq<char>) -> Option<i64> {
    let (neg, d) = if s.len() > 0 && s[0] == '-' {
        (true, s.drop_first())
    } else if s.len() > 0 && s[0] == '+' {
        (false, s.drop_first())
    } else {
        (false, s)
    };
    if all_digits(d) {
        let v = if neg {
            -digits_value(d)
        } else {
            digits_value(d)
        };
        if i64::MIN <= v <= i64::MAX {
            Some(v as i64)
        } else {
            None
        }
    } else {
        None
    }
}

/// `s` as `u64::from_str` reads it: an optional `+`, then digits, in range.
pub open spec fn parsed_u64(s: Seq<char>) -> Option<u64> {
    let d = if s.len() > 0 && s[0] == '+' {
        s.drop_first()
    } else {
        s
    };
    if all_digits(d) && digits_value(d) <= u64::MAX {
        Some(digits_value(d) as u64)
    } else {
        None
    }
}

proof fn lemma_digits_nonneg(d: Seq<char>)
    requires
        forall|i: int| 0 <= i < d.len() ==> '0' <= #[trigger] d[i] <= '9',
    ensures
        digits_value(d) >= 0,
    decreases d.len(),
{
    if d.len() > 0 {
        lemma_digits_nonneg(d.drop_last());
    }
}

/// The value of the digits `cs[from..]`, or `None` when one is not a digit, there are
/// none, or the value exceeds `cap`.
fn digits_up_to(cs: &Vec<char>, from: usize, cap: u128) -> (r: Option<u128>)
    requires
        from <= cs@.len(),
        9 <= cap < 0x1_0000_0000_0000_0000_0000,
    ensures
        match r {
            Some(v) => all_digits(cs@.skip(from as int)) && v == digits_value(cs@.skip(from as int))
                && v <= cap,
            None => !all_digits(cs@.skip(from as int)) || digits_value(cs@.skip(from as int))
                > cap,
        },
{
    let ghost d = cs@.skip(from as int);
    if from == cs.len() {
        return None;
    }
    let mut v: u128 = 0;
    let mut i = from;
    assert(d.take(0) =~= Seq::<char>::empty());
    while i < cs.len()
        invariant
            from <= i <= cs@.len(),
            d == cs@.skip(from as int),
            9 <= cap < 0x1_0000_0000_0000_0000_0000,
            v == digits_value(d.take(i - from)),
            v <= cap,
            forall|k: int| 0 <= k < i - from ==> '0' <= #[trigger] d[k] <= '9',
        decreases cs@.len() - i,
    {
        let c = cs[i];
        assert(d[i - from] == c);
        if c < '0' || c > '9' {
            assert(!all_digits(d));
            return None;
        }
        assert(d.take(i - from + 1).drop_last() =~= d.take(i - from));
        let dv = (c as u32 - '0' as u32) as u128;
        if v > (cap - dv) / 10 {
            proof {
                assert(all_digits(d) ==> digits_value(d) > cap) by {
                    if all_digits(d) {
                        lemma_prefix_le(d, i - from + 1);
                    }
                }
            }
            return None;
        }
        v = v * 10 + dv;
        i = i + 1;
    }
    assert(d.take(i - from) =~= d);
    Some(v)
}

/// A longer run of digits is worth at least as much as its prefix.
proof fn lemma_prefix_le(d: Seq<char>, k: int)
    requires
        0 <= k <= d.len(),
        forall|i: int| 0 <= i < d.len() ==> '0' <= #[trigger] d[i] <= '9',
    ensures
        digits_value(d.take(k)) <= digits_value(d),
    decreases d.len() - k,
{
    if k < d.len() {
        lemma_prefix_le(d, k + 1);
        assert(d.take(k + 1).drop_last() =~= d.take(k));
        lemma_digits_nonneg(d.take(k));
        assert(d.take(k + 1).last() == d[k]);
        assert(digits_value(d.take(k)) <= digits_value(d.take(k + 1))) by (nonlinear_arith)
            requires
                digits_value(d.take(k + 1)) == digits_value(d.take(k)) * 10 + (d[k] as int - '0' as int),
                digits_value(d.take(k)) >= 0,
                '0' <= d[k] <= '9',
        ;
    } else {
        assert(d.take(k) =~= d);
    }
}

/// `s` as `i64::from_str` reads it.
pub fn parse_i64(s: &str) -> (r: Option<i64>)
    ensures
        r == parsed_i64(s@),
{
    let cs = str_chars(s);
    let (neg, from) = if cs.len() > 0 && cs[0] == '-' {
        (true, 1)
    } else if cs.len() > 0 && cs[0] == '+' {
        (false, 1)
    } else {
        (false, 0)
    };
    assert(cs@.skip(from as int) =~= if from == 1 {
        cs@.drop_first()
    } else {
        cs@
    });
    let cap: u128 = if neg {
        9_223_372_036_854_775_808
    } else {
        9_223_372_036_854_775_807
    };
    match digits_up_to(&cs, from, cap) {
        Some(v) => {
            if neg {
                if v == 9_223_372_036_854_775_808 {
                    Some(i64::MIN)
                } else {
                    Some(-(v as i64))
                }
            } else {
                Some(v as i64)
            }
        },
        None => None,
    }
}

/// `s` as `u64::from_str` reads it.
pub fn parse_u64(s: &str) -> (r: Option<u64>)
    ensures
        r == parsed_u64(s@),
{
    let cs = str_chars(s);
    let from: usize = if cs.len() > 0 && cs[0] == '+' {
        1
    } else {
        0
    };
    assert(cs@.skip(from as int) =~= if from == 1 {
        cs@.drop_first()
    } else {
        cs@
    });
    match digits_up_to(&cs, from, 0xffff_ffff_ffff_ffff) {
        Some(v) => Some(v as u64),
        None => None,
    }
}

} // verus!
