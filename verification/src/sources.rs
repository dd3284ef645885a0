//! The list of source chats: one per line, `#` starts a comment, `t.me` links are
//! reduced to the chat's name, and each source counts once.
use crate::filter::{index_of_from, lines_of, split_lines, trimmed};
use crate::table::{str_views, StrSet};
use crate::text::has_prefix;
use crate::utf16::{str_chars, string_from_chars};
use vstd::prelude::*;

verus! {

/// Why a list of sources was refused.
#[derive(Debug, Clone, Copy, PartialEq, Eq, Structural)]
pub enum SourcesError {
    /// No line names a source.
    NoSources,
}

/// A line up to its first `#`.
pub open spec fn before_hash(t: Seq<char>) -> Seq<char> {
    match index_of_from(t, '#', 0) {
        Some(i) => t.take(i),
        None => t,
    }
}

/// A source without a leading `https://t.me/` or `t.me/`.
pub open spec fn normalized_source(s: Seq<char>) -> Seq<char> {
    if has_prefix(s, seq!['h', 't', 't', 'p', 's', ':', '/', '/', 't', '.', 'm', 'e', '/']) {
        s.skip(13)
    } else if has_prefix(s, seq!['t', '.', 'm', 'e', '/']) {
        s.skip(5)
    } else {
        s
    }
}

/// The source a line names, if any: the trimmed text before its comment, normalized.
pub open spec fn source_of_line(line: Seq<char>) -> Option<Seq<char>> {
    let s = trim_of(before_hash(trim_of(line)));
    if s.len() == 0 {
        None
    } else {
        Some(normalized_source(s))
    }
}

/// `s` without leading and trailing whitespace.
pub open spec fn trim_of(s: Seq<char>) -> Seq<char> {
    crate::text::trim_ws(s)
}

/// The sources that `lines` name, each once, in the order they first appear.
pub open spec fn sources_of_lines(lines: Seq<Seq<char>>) -> Seq<Seq<char>>
    decreases lines.len(),
{
    if lines.len() == 0 {
        Seq::empty()
    } else {
        let prev = sources_of_lines(lines.drop_last());
        match source_of_line(lines.last()) {
            Some(s) => if prev.contains(s) {
                prev
            } else {
                prev.push(s)
            },
            None => prev,
        }
    }
}

fn starts_with_at(cs: &Vec<char>, p: &[char]) -> (b: bool)
    ensures
        b == has_prefix(cs@, p@),
{
    crate::text::chars_start_with(cs.as_slice(), p)
}

/// The source that one line names, as `source_of_line` states.
fn line_source(line: &Vec<char>) -> (r: Option<Vec<char>>)
    ensures
        match r {
            Some(v) => source_of_line(line@) == Some(v@),
            None => source_of_line(line@) is None,
        },
{
    let t = trimmed(line);
    let mut cut: Vec<char> = Vec::new();
    let mut i: usize = 0;
    while i < t.len() && t[i] != '#'
        invariant
            i <= t@.len(),
            cut@ == t@.take(i as int),
            index_of_from(t@, '#', 0) == index_of_from(t@, '#', i as int),
        decreases t@.len() - i,
    {
        cut.push(t[i]);
        i = i + 1;
        assert(cut@ =~= t@.take(i as int));
    }
    assert(cut@ == before_hash(t@)) by {
        if i < t@.len() {
            assert(index_of_from(t@, '#', i as int) == Some(i as int));
        } else {
            assert(t@.take(i as int) =~= t@);
        }
    }
    let s = trimmed(&cut);
    if s.len() == 0 {
        return None;
    }
    let https = ['h', 't', 't', 'p', 's', ':', '/', '/', 't', '.', 'm', 'e', '/'];
    let short = ['t', '.', 'm', 'e', '/'];
    assert(https@ == seq!['h', 't', 't', 'p', 's', ':', '/', '/', 't', '.', 'm', 'e', '/']);
    assert(short@ == seq!['t', '.', 'm', 'e', '/']);
    let skip: usize = if starts_with_at(&s, &https) {
        13
    } else if starts_with_at(&s, &short) {
        5
    } else {
        0
    };
    let mut out: Vec<char> = Vec::new();
    let mut k = skip;
    while k < s.len()
        invariant
            skip <= k <= s@.len(),
            out@ == s@.subrange(skip as int, k as int),
        decreases s@.len() - k,
    {
        out.push(s[k]);
        k = k + 1;
    }
    assert(out@ =~= normalized_source(s@));
    Some(out)
}

/// Reads the sources from the text of a sources file, as `sources_of_lines` states;
/// refuses a text that names none.
pub fn parse_sources(content: &str) -> (r: Result<Vec<String>, SourcesError>)
    ensures
        match r {
            Ok(v) => str_views(v@) == sources_of_lines(lines_of(content@)) && v@.len() > 0,
            Err(e) => e == SourcesError::NoSources && sources_of_lines(lines_of(content@)).len()
                == 0,
        },
{
    let cs = str_chars(content);
    let lines = split_lines(&cs);
    let ghost ls = lines_of(content@);
    let mut out: Vec<String> = Vec::new();
    let mut seen = StrSet::new();
    let mut i: usize = 0;
    while i < lines.len()
        invariant
            i <= lines@.len(),
            ls == lines@.map_values(|l: Vec<char>| l@),
            seen.wf(),
            str_views(out@) == sources_of_lines(ls.take(i as int)),
            forall|k: Seq<char>| seen@.contains(k) <==> str_views(out@).contains(k),
        decreases lines@.len() - i,
    {
        let ghost prev = str_views(out@);
        proof {
            assert(ls.take(i as int + 1).drop_last() =~= ls.take(i as int));
            assert(ls.take(i as int + 1).last() == lines@[i as int]@);
        }
        match line_source(&lines[i]) {
            Some(src) => {
                let s = string_from_chars(src.as_slice());
                if !seen.contains(s.as_str()) {
                    let s2 = string_from_chars(src.as_slice());
                    seen.insert(s2);
                    out.push(s);
                    proof {
                        assert(str_views(out@) =~= prev.push(src@));
                        assert forall|k: Seq<char>| seen@.contains(k) <==> str_views(out@).contains(k) by {
                            if k == src@ {
                                assert(str_views(out@)[prev.len() as int] == src@);
                            }
                            if str_views(out@).contains(k) && k != src@ {
                                let q = choose|q: int| 0 <= q < str_views(out@).len() && str_views(out@)[q] == k;
                                assert(q < prev.len());
                                assert(prev[q] == k);
                            }
                            if prev.contains(k) {
                                let q = choose|q: int| 0 <= q < prev.len() && prev[q] == k;
                                assert(str_views(out@)[q] == k);
                            }
                        }
                    }
                } else {
                    assert(prev.contains(src@));
                }
            },
            None => {},
        }
        i = i + 1;
    }
    assert(ls.take(lines@.len() as int) =~= ls);
    if out.len() == 0 {
        Err(SourcesError::NoSources)
    } else {
        Ok(out)
    }
}

/// A list of sources names each source once.
pub proof fn law_sources_listed_once(lines: Seq<Seq<char>>)
    ensures
        sources_of_lines(lines).no_duplicates(),
    decreases lines.len(),
{
    if lines.len() > 0 {
        law_sources_listed_once(lines.drop_last());
        let prev = sources_of_lines(lines.drop_last());
        match source_of_line(lines.last()) {
            Some(s) => {
                if !prev.contains(s) {
                    let cur = prev.push(s);
                    assert forall|i: int, j: int| 0 <= i < j < cur.len() implies cur[i] != cur[j] by {
                        if j == prev.len() {
                            assert(prev.contains(prev[i]));
                        }
                    }
                }
            },
            None => {},
        }
    }
}

} // verus!
