//! Text similarity: features of four chars of the cleaned text, their SipHash values,
//! the SimHash fingerprint built from them, and the Jaccard index of two feature lists.
use crate::bits::{count_ones, hamming};
use crate::text::{clean_text, cleaned};
use crate::utf16::{str_chars, string_from_range, utf8_units, utf8_width};
use vstd::prelude::*;

verus! {

/// SipHash-2-4 with zero keys of a string as `Hash` feeds it (its UTF-8 bytes, then
/// `0xff`); the result is named, not spelled out.
pub uninterp spec fn sip_hash(s: Seq<char>) -> u64;

/// `siphasher::sip::SipHasher::new()` fed with `s` through `Hash`, then `finish()`.
#[verifier::external_body]
fn sip_hash_str(s: &str) -> (h: u64)
    ensures
        h == sip_hash(s@),
{
    let mut hasher = siphasher::sip::SipHasher::new();
    std::hash::Hash::hash(s, &mut hasher);
    std::hash::Hasher::finish(&hasher)
}

/// The features of a non-empty cleaned text: every run of four consecutive chars, or
/// the whole text when it is shorter.
pub open spec fn windows(c: Seq<char>) -> Seq<Seq<char>> {
    if c.len() < 4 {
        seq![c]
    } else {
        Seq::new((c.len() - 3) as nat, |i: int| c.subrange(i, i + 4))
    }
}

/// The hashed features of a text: none when its cleaned form is empty.
pub open spec fn feature_hashes(text: Seq<char>) -> Seq<u64> {
    let c = cleaned(text);
    if c.len() == 0 {
        Seq::empty()
    } else {
        windows(c).map_values(|w: Seq<char>| sip_hash(w))
    }
}

/// Whether bit `i` of `h` is set.
pub open spec fn bit(h: u64, i: u64) -> bool {
    (h >> i) & 1u64 == 1u64
}

/// How many of `hs` have bit `i` set.
pub open spec fn ones_at(hs: Seq<u64>, i: u64) -> nat
    decreases hs.len(),
{
    if hs.len() == 0 {
        0
    } else {
        ones_at(hs.drop_last(), i) + if bit(hs.last(), i) {
            1nat
        } else {
            0nat
        }
    }
}

/// The lowest `k` bits of the SimHash of `hs`: bit `i` is set when at least half of
/// `hs` have it set.
pub open spec fn vote_bits(hs: Seq<u64>, k: nat) -> u64
    decreases k,
{
    if k == 0 {
        0
    } else {
        let prev = vote_bits(hs, (k - 1) as nat);
        if 2 * ones_at(hs, (k - 1) as u64) >= hs.len() {
            prev | (1u64 << ((k - 1) as u64))
        } else {
            prev
        }
    }
}

/// The SimHash of `hs`: 0 for no features.
pub open spec fn simhash_of(hs: Seq<u64>) -> u64 {
    if hs.len() == 0 {
        0
    } else {
        vote_bits(hs, 64)
    }
}

/// The SimHash fingerprint of a text.
pub open spec fn fingerprint(text: Seq<char>) -> u64 {
    simhash_of(feature_hashes(text))
}

/// Whether the Jaccard index of the value sets of `a` and `b` exceeds `threshold_ppm`
/// millionths; never when either is empty.
pub open spec fn jaccard_exceeds(a: Seq<u64>, b: Seq<u64>, threshold_ppm: u64) -> bool {
    let sa = a.to_set();
    let sb = b.to_set();
    a.len() > 0 && b.len() > 0 && sa.intersect(sb).len() * 1_000_000 > threshold_ppm * sa.union(
        sb,
    ).len()
}

/// A text has no more chars than UTF-8 bytes.
pub proof fn lemma_len_le_utf8(s: Seq<char>)
    ensures
        s.len() <= utf8_units(s),
    decreases s.len(),
{
    if s.len() > 0 {
        lemma_len_le_utf8(s.drop_last());
        assert(utf8_width(s.last()) >= 1);
    }
}

/// The SipHash of every feature of the non-empty cleaned text `cs`.
pub fn hash_windows(cs: &Vec<char>) -> (r: Vec<u64>)
    requires
        cs@.len() > 0,
    ensures
        r@ == windows(cs@).map_values(|w: Seq<char>| sip_hash(w)),
{
    let n = cs.len();
    let mut r: Vec<u64> = Vec::new();
    if n < 4 {
        let s = string_from_range(cs.as_slice(), 0, n);
        assert(cs@.subrange(0, n as int) =~= cs@);
        r.push(sip_hash_str(s.as_str()));
        assert(r@ =~= windows(cs@).map_values(|w: Seq<char>| sip_hash(w)));
        return r;
    }
    let mut i: usize = 0;
    while i < n - 3
        invariant
            n == cs@.len(),
            n >= 4,
            i <= n - 3,
            r@ =~= windows(cs@).map_values(|w: Seq<char>| sip_hash(w)).take(i as int),
        decreases n - i,
    {
        let s = string_from_range(cs.as_slice(), i, i + 4);
        r.push(sip_hash_str(s.as_str()));
        i = i + 1;
    }
    assert(windows(cs@).map_values(|w: Seq<char>| sip_hash(w)).take(i as int) =~= windows(
        cs@,
    ).map_values(|w: Seq<char>| sip_hash(w)));
    r
}

/// The hashed features of `text`, as `feature_hashes` states.
pub fn text_feature_hashes(text: &str) -> (r: Vec<u64>)
    ensures
        r@ == feature_hashes(text@),
{
    let c = clean_text(text);
    let cs = str_chars(c.as_str());
    if cs.len() == 0 {
        return Vec::new();
    }
    hash_windows(&cs)
}

/// `ones_at` of one more element.
proof fn lemma_ones_push(hs: Seq<u64>, k: int, i: u64)
    requires
        0 <= k < hs.len(),
    ensures
        ones_at(hs.take(k + 1), i) == ones_at(hs.take(k), i) + if bit(hs[k], i) {
            1nat
        } else {
            0nat
        },
{
    assert(hs.take(k + 1).drop_last() =~= hs.take(k));
}

/// The SimHash of `hs`, as `simhash_of` states.
pub fn simhash(hs: &Vec<u64>) -> (r: u64)
    requires
        hs@.len() <= isize::MAX,
    ensures
        r == simhash_of(hs@),
{
    let n = hs.len();
    if n == 0 {
        return 0;
    }
    let mut v: Vec<i64> = Vec::new();
    while v.len() < 64
        invariant
            v@.len() <= 64,
            forall|j: int| 0 <= j < v@.len() ==> v@[j] == 0,
        decreases 64 - v@.len(),
    {
        v.push(0);
    }
    let mut k: usize = 0;
    assert(hs@.take(0) =~= Seq::<u64>::empty());
    while k < n
        invariant
            n == hs@.len() <= isize::MAX,
            k <= n,
            v@.len() == 64,
            forall|j: int|
                0 <= j < 64 ==> #[trigger] v@[j] == 2 * ones_at(hs@.take(k as int), j as u64) - k,
            forall|j: u64| j < 64 ==> #[trigger] ones_at(hs@.take(k as int), j) <= k,
        decreases n - k,
    {
        let h = hs[k];
        let mut i: u64 = 0;
        while i < 64
            invariant
                n == hs@.len() <= isize::MAX,
                k < n,
                h == hs@[k as int],
                i <= 64,
                v@.len() == 64,
                forall|j: int|
                    0 <= j < i ==> #[trigger] v@[j] == 2 * ones_at(hs@.take(k + 1), j as u64) - (k
                        + 1),
                forall|j: int|
                    i <= j < 64 ==> #[trigger] v@[j] == 2 * ones_at(hs@.take(k as int), j as u64)
                        - k,
                forall|j: u64| j < 64 ==> #[trigger] ones_at(hs@.take(k as int), j) <= k,
            decreases 64 - i,
        {
            proof {
                lemma_ones_push(hs@, k as int, i);
            }
            let cur = v[i as usize];
            if (h >> i) & 1 == 1 {
                v.set(i as usize, cur + 1);
            } else {
                v.set(i as usize, cur - 1);
            }
            i = i + 1;
        }
        proof {
            assert forall|j: u64| j < 64 implies #[trigger] ones_at(hs@.take(k + 1), j) <= k + 1 by {
                lemma_ones_push(hs@, k as int, j);
            }
        }
        k = k + 1;
    }
    assert(hs@.take(n as int) =~= hs@);
    let mut fp: u64 = 0;
    let mut i: u64 = 0;
    while i < 64
        invariant
            n == hs@.len(),
            i <= 64,
            v@.len() == 64,
            forall|j: int| 0 <= j < 64 ==> #[trigger] v@[j] == 2 * ones_at(hs@, j as u64) - n,
            fp == vote_bits(hs@, i as nat),
        decreases 64 - i,
    {
        if v[i as usize] >= 0 {
            fp = fp | (1u64 << i);
        }
        i = i + 1;
    }
    fp
}

/// The SimHash fingerprint of `text`, as `fingerprint` states.
pub fn text_fingerprint(text: &str) -> (r: u64)
    ensures
        r == fingerprint(text@),
{
    let c = clean_text(text);
    let cs = str_chars(c.as_str());
    if cs.len() == 0 {
        return 0;
    }
    proof {
        lemma_len_le_utf8(cs@);
    }
    let hs = hash_windows(&cs);
    simhash(&hs)
}

/// Number of bits in which `a` and `b` differ.
pub fn hamming_distance(a: u64, b: u64) -> (r: u32)
    ensures
        r == hamming(a, b),
{
    count_ones(a ^ b)
}

/// Whether `x` is in `s`.
fn words_contain(s: &Vec<u64>, x: u64) -> (r: bool)
    ensures
        r == s@.contains(x),
{
    let mut i: usize = 0;
    while i < s.len()
        invariant
            i <= s@.len(),
            forall|j: int| 0 <= j < i ==> s@[j] != x,
        decreases s@.len() - i,
    {
        if s[i] == x {
            return true;
        }
        i = i + 1;
    }
    false
}

/// The distinct values of `s`, each once.
fn distinct(s: &Vec<u64>) -> (r: Vec<u64>)
    ensures
        r@.no_duplicates(),
        r@.to_set() == s@.to_set(),
{
    let mut r: Vec<u64> = Vec::new();
    let mut i: usize = 0;
    while i < s.len()
        invariant
            i <= s@.len(),
            r@.no_duplicates(),
            forall|x: u64| r@.contains(x) <==> s@.take(i as int).contains(x),
        decreases s@.len() - i,
    {
        let x = s[i];
        proof {
            assert forall|y: u64| s@.take(i + 1).contains(y) <==> s@.take(i as int).contains(y)
                || y == x by {
                if s@.take(i + 1).contains(y) && y != x {
                    let k = choose|k: int| 0 <= k < i + 1 && #[trigger] s@.take(i + 1)[k] == y;
                    assert(s@.take(i as int)[k] == y);
                }
                if s@.take(i as int).contains(y) {
                    let k = choose|k: int| 0 <= k < i && #[trigger] s@.take(i as int)[k] == y;
                    assert(s@.take(i + 1)[k] == y);
                }
                if y == x {
                    assert(s@.take(i + 1)[i as int] == y);
                }
            }
        }
        let ghost prev = r@;
        let found = words_contain(&r, x);
        if !found {
            let ghost before = r@;
            r.push(x);
            proof {
                assert forall|y: u64| r@.contains(y) <==> before.contains(y) || y == x by {
                    if r@.contains(y) && y != x {
                        let k = choose|k: int| 0 <= k < r@.len() && r@[k] == y;
                        assert(before[k] == y);
                    }
                    if before.contains(y) {
                        let k = choose|k: int| 0 <= k < before.len() && before[k] == y;
                        assert(r@[k] == y);
                    }
                    if y == x {
                        assert(r@[before.len() as int] == y);
                    }
                }
            }
        }
        assert forall|y: u64| r@.contains(y) <==> s@.take(i + 1).contains(y) by {
            assert(prev.contains(y) == s@.take(i as int).contains(y));
            assert(s@.take(i + 1).contains(y) == (s@.take(i as int).contains(y) || y == x));
            if found {
                assert(r@ == prev);
            }
        }
        i = i + 1;
    }
    assert(s@.take(s@.len() as int) =~= s@);
    assert(r@.to_set() =~= s@.to_set());
    r
}

/// Whether the Jaccard index of `a` and `b` exceeds `threshold_ppm` millionths, as
/// `jaccard_exceeds` states.
pub fn jaccard_above(a: &Vec<u64>, b: &Vec<u64>, threshold_ppm: u64) -> (r: bool)
    ensures
        r == jaccard_exceeds(a@, b@, threshold_ppm),
{
    if a.len() == 0 || b.len() == 0 {
        return false;
    }
    let da = distinct(a);
    let db = distinct(b);
    let mut common: Vec<u64> = Vec::new();
    let mut i: usize = 0;
    while i < da.len()
        invariant
            i <= da@.len(),
            da@.no_duplicates(),
            common@.no_duplicates(),
            common@.len() <= i,
            forall|x: u64| common@.contains(x) <==> (da@.take(i as int).contains(x) && db@.contains(x)),
        decreases da@.len() - i,
    {
        let x = da[i];
        proof {
            assert forall|y: u64| da@.take(i + 1).contains(y) <==> da@.take(i as int).contains(y)
                || y == x by {
                if da@.take(i + 1).contains(y) && y != x {
                    let k = choose|k: int| 0 <= k < i + 1 && #[trigger] da@.take(i + 1)[k] == y;
                    assert(da@.take(i as int)[k] == y);
                }
                if da@.take(i as int).contains(y) {
                    let k = choose|k: int| 0 <= k < i && #[trigger] da@.take(i as int)[k] == y;
                    assert(da@.take(i + 1)[k] == y);
                }
                if y == x {
                    assert(da@.take(i + 1)[i as int] == y);
                }
            }
            assert(!da@.take(i as int).contains(x)) by {
                if da@.take(i as int).contains(x) {
                    let k = choose|k: int| 0 <= k < i && #[trigger] da@.take(i as int)[k] == x;
                    assert(da@[k] == da@[i as int]);
                }
            }
        }
        let ghost prev = common@;
        let found = words_contain(&db, x);
        if found {
            let ghost before = common@;
            common.push(x);
            proof {
                assert forall|y: u64| common@.contains(y) <==> before.contains(y) || y == x by {
                    if common@.contains(y) && y != x {
                        let k = choose|k: int| 0 <= k < common@.len() && common@[k] == y;
                        assert(before[k] == y);
                    }
                    if before.contains(y) {
                        let k = choose|k: int| 0 <= k < before.len() && before[k] == y;
                        assert(common@[k] == y);
                    }
                    if y == x {
                        assert(common@[before.len() as int] == y);
                    }
                }
            }
        }
        assert forall|y: u64| common@.contains(y) <==> (da@.take(i + 1).contains(y) && db@.contains(
            y,
        )) by {
            assert(prev.contains(y) == (da@.take(i as int).contains(y) && db@.contains(y)));
            assert(da@.take(i + 1).contains(y) == (da@.take(i as int).contains(y) || y == x));
            if !found {
                assert(common@ == prev);
            }
        }
        i = i + 1;
    }
    let ghost sa = a@.to_set();
    let ghost sb = b@.to_set();
    proof {
        assert(da@.take(da@.len() as int) =~= da@);
        assert(common@.to_set() =~= sa.intersect(sb)) by {
            assert forall|x: u64| common@.to_set().contains(x) <==> sa.intersect(sb).contains(x) by {
                assert(da@.to_set().contains(x) <==> da@.contains(x));
                assert(db@.to_set().contains(x) <==> db@.contains(x));
            }
        }
        da@.unique_seq_to_set();
        db@.unique_seq_to_set();
        common@.unique_seq_to_set();
        vstd::seq_lib::seq_to_set_is_finite(a@);
        vstd::seq_lib::seq_to_set_is_finite(b@);
        vstd::set_lib::lemma_set_intersect_union_lens(sa, sb);
        assert(sa + sb == sa.union(sb));
    }
    let inter = common.len() as u128;
    let union = (da.len() as u128) + (db.len() as u128) - inter;
    proof {
        assert(sa.intersect(sb).subset_of(sa.union(sb)));
        vstd::set_lib::lemma_len_subset(sa.intersect(sb), sa.union(sb));
    }
    if threshold_ppm >= 1_000_000 {
        assert(inter * 1_000_000 <= (threshold_ppm as u128) * union) by (nonlinear_arith)
            requires
                inter <= union,
                threshold_ppm >= 1_000_000,
        ;
        return false;
    }
    assert((threshold_ppm as u128) * union < 1_000_000 * 0x4_0000_0000_0000_0000) by (nonlinear_arith)
        requires
            threshold_ppm < 1_000_000,
            union < 0x4_0000_0000_0000_0000,
    ;
    inter * 1_000_000 > (threshold_ppm as u128) * union
}

} // verus!
