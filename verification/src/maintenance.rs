//! Upkeep of files on disk: the log file is cut to its last lines, and the session
//! database is recognized by its header before its write-ahead log is checkpointed.
use crate::filter::{lines_of, split_lines};
use crate::utf16::{str_chars, string_from_chars};
use vstd::prelude::*;

verus! {

/// Lines joined with `\n` between them.
pub open spec fn joined_lines(ls: Seq<Seq<char>>) -> Seq<char>
    decreases ls.len(),
{
    if ls.len() == 0 {
        Seq::empty()
    } else if ls.len() == 1 {
        ls[0]
    } else {
        joined_lines(ls.drop_last()) + seq!['\n'] + ls.last()
    }
}

/// The new text of a log that keeps only its last `max_lines` lines; `None` when it
/// has no more lines than that and stays as it is.
pub open spec fn rotated(content: Seq<char>, max_lines: usize) -> Option<Seq<char>> {
    let ls = lines_of(content);
    if ls.len() <= max_lines {
        None
    } else {
        Some(joined_lines(ls.skip(ls.len() - max_lines)))
    }
}

/// The text of a log cut to its last `max_lines` lines, as `rotated` states.
pub fn rotate_log_content(content: &str, max_lines: usize) -> (r: Option<String>)
    ensures
        match r {
            Some(s) => rotated(content@, max_lines) == Some(s@),
            None => rotated(content@, max_lines) is None,
        },
{
    let cs = str_chars(content);
    let lines = split_lines(&cs);
    let ghost ls = lines_of(content@);
    assert(lines@.map_values(|l: Vec<char>| l@) == ls);
    if lines.len() <= max_lines {
        return None;
    }
    let start = lines.len() - max_lines;
    let ghost kept = ls.skip(start as int);
    let mut out: Vec<char> = Vec::new();
    let mut i = start;
    while i < lines.len()
        invariant
            start <= i <= lines@.len(),
            ls == lines@.map_values(|l: Vec<char>| l@),
            kept == ls.skip(start as int),
            out@ == joined_lines(kept.take(i - start)),
        decreases lines@.len() - i,
    {
        let ghost before = out@;
        if i > start {
            out.push('\n');
        }
        let line = &lines[i];
        let mut k: usize = 0;
        let ghost mid = out@;
        while k < line.len()
            invariant
                k <= line@.len(),
                out@ == mid + line@.take(k as int),
            decreases line@.len() - k,
        {
            out.push(line[k]);
            k = k + 1;
            assert(out@ =~= mid + line@.take(k as int));
        }
        proof {
            assert(line@.take(line@.len() as int) =~= line@);
            let t = kept.take(i - start + 1);
            assert(t.drop_last() =~= kept.take(i - start));
            assert(t.last() == line@);
            if i == start {
                assert(before =~= Seq::<char>::empty());
                assert(out@ =~= joined_lines(t));
            } else {
                assert(out@ =~= before + seq!['\n'] + line@);
            }
        }
        i = i + 1;
    }
    assert(kept.take(lines@.len() - start) =~= kept);
    Some(string_from_chars(out.as_slice()))
}

/// The first 16 bytes of every SQLite database: `SQLite format 3` and a zero byte.
pub open spec fn sqlite_header() -> Seq<u8> {
    seq![83u8, 81, 76, 105, 116, 101, 32, 102, 111, 114, 109, 97, 116, 32, 51, 0]
}

/// Whether the first 16 bytes of a file are the SQLite header.
pub fn is_sqlite_header(header: &[u8]) -> (r: bool)
    ensures
        r == (header@ == sqlite_header()),
{
    let expected: [u8; 16] = [83, 81, 76, 105, 116, 101, 32, 102, 111, 114, 109, 97, 116, 32, 51, 0];
    assert(expected@ =~= sqlite_header());
    if header.len() != 16 {
        return false;
    }
    let mut i: usize = 0;
    while i < 16
        invariant
            i <= 16,
            header@.len() == 16,
            expected@ == sqlite_header(),
            forall|j: int| 0 <= j < i ==> header@[j] == expected@[j],
        decreases 16 - i,
    {
        if header[i] != expected[i] {
            return false;
        }
        i = i + 1;
    }
    assert(header@ =~= sqlite_header());
    true
}

/// Keeps the write-ahead log of the session database in check.
pub struct SessionCleaner {
    session_path: String,
}

impl SessionCleaner {
    /// A cleaner for the session database at `session_path`.
    pub fn new(session_path: &str) -> (r: Self)
        ensures
            r.path() == session_path@,
    {
        SessionCleaner { session_path: string_from_chars(str_chars(session_path).as_slice()) }
    }

    /// The path of the session database.
    pub closed spec fn path(&self) -> Seq<char> {
        self.session_path@
    }

    /// The path of the session database.
    pub fn session_path(&self) -> (r: &str)
        ensures
            r@ == self.path(),
    {
        self.session_path.as_str()
    }
}

} // verus!
