//! Which media attachments are not forwarded: too large ones, and documents when
//! documents are disabled or their extension is not allowed.
use crate::model::{MediaSpec, MediaType, MediaView};
use crate::text::{lowercase, str_to_lowercase};
use crate::utf16::{str_chars, string_from_range};
use vstd::prelude::*;

verus! {

/// The part of a file name after its last `.` (the whole name when it has none).
pub open spec fn extension_of(name: Seq<char>) -> Seq<char>
    decreases name.len(),
{
    if name.len() == 0 {
        name
    } else if name.last() == '.' {
        Seq::empty()
    } else {
        extension_of(name.drop_last()).push(name.last())
    }
}

/// Media limits: a size limit (0 for none), allowed document extensions (all when
/// empty), and whether documents are forwarded at all.
pub struct MediaFilter {
    size_limit: usize,
    ext_allowlist: Vec<String>,
    allow_documents: bool,
}

/// The media filter as a mathematical value.
pub struct MediaFilterSpec {
    pub size_limit: usize,
    pub ext_allowlist: Seq<Seq<char>>,
    pub allow_documents: bool,
}

impl View for MediaFilter {
    type V = MediaFilterSpec;

    closed spec fn view(&self) -> MediaFilterSpec {
        MediaFilterSpec {
            size_limit: self.size_limit,
            ext_allowlist: crate::table::str_views(self.ext_allowlist@),
            allow_documents: self.allow_documents,
        }
    }
}

/// Whether a media attachment is not forwarded.
pub open spec fn skips(f: MediaFilterSpec, m: MediaSpec) -> bool {
    if m.size_bytes > f.size_limit && f.size_limit > 0 {
        true
    } else {
        match m.media_type {
            MediaType::Document => if !f.allow_documents {
                true
            } else if f.ext_allowlist.len() > 0 {
                match m.file_name {
                    Some(name) => !f.ext_allowlist.contains(lowercase(extension_of(name))),
                    None => true,
                }
            } else {
                false
            },
            _ => false,
        }
    }
}

impl MediaFilter {
    /// A filter with the given limits.
    pub fn new(size_limit: usize, ext_allowlist: Vec<String>, allow_documents: bool) -> (r: Self)
        ensures
            r@ == (MediaFilterSpec {
                size_limit,
                ext_allowlist: crate::table::str_views(ext_allowlist@),
                allow_documents,
            }),
    {
        MediaFilter { size_limit, ext_allowlist, allow_documents }
    }

    /// Whether `media` is not forwarded, as `skips` states.
    pub fn should_skip(&self, media: &MediaView) -> (r: bool)
        ensures
            r == skips(self@, media@),
    {
        if media.size_bytes > self.size_limit && self.size_limit > 0 {
            return true;
        }
        match media.media_type {
            MediaType::Photo => false,
            MediaType::Video => false,
            MediaType::Document => {
                if !self.allow_documents {
                    return true;
                }
                if self.ext_allowlist.len() > 0 {
                    match &media.file_name {
                        Some(name) => {
                            let ext = file_extension(name.as_str());
                            let lower = str_to_lowercase(ext.as_str());
                            !strings_contain(&self.ext_allowlist, &lower)
                        },
                        None => true,
                    }
                } else {
                    false
                }
            },
        }
    }
}

/// The extension of a file name, as `extension_of` states.
fn file_extension(name: &str) -> (r: String)
    ensures
        r@ == extension_of(name@),
{
    let cs = str_chars(name);
    let mut i = cs.len();
    assert(cs@.take(i as int) =~= cs@);
    assert(cs@.subrange(i as int, i as int) =~= Seq::<char>::empty());
    assert(extension_of(cs@) =~= extension_of(cs@.take(i as int)) + cs@.subrange(i as int, cs@.len() as int));
    while i > 0 && cs[i - 1] != '.'
        invariant
            i <= cs@.len(),
            extension_of(cs@) == extension_of(cs@.take(i as int)) + cs@.subrange(i as int, cs@.len() as int),
        decreases i,
    {
        let ghost t = cs@.take(i as int);
        assert(t.drop_last() =~= cs@.take(i - 1));
        assert(cs@.subrange(i - 1, cs@.len() as int) =~= seq![t.last()] + cs@.subrange(i as int, cs@.len() as int));
        assert(extension_of(t) == extension_of(t.drop_last()).push(t.last()));
        assert(extension_of(cs@.take(i - 1)) + cs@.subrange(i - 1, cs@.len() as int) =~= extension_of(t.drop_last()).push(t.last()) + cs@.subrange(i as int, cs@.len() as int));
        i = i - 1;
    }
    proof {
        if i > 0 {
            assert(extension_of(cs@.take(i as int)) =~= Seq::<char>::empty());
        } else {
            assert(extension_of(cs@.take(0)) =~= Seq::<char>::empty());
        }
        assert(cs@.take(cs@.len() as int) =~= cs@);
    }
    string_from_range(cs.as_slice(), i, cs.len())
}

/// Whether some string of `v` has the chars of `s`.
fn strings_contain(v: &Vec<String>, s: &String) -> (r: bool)
    ensures
        r == crate::table::str_views(v@).contains(s@),
{
    let mut i: usize = 0;
    while i < v.len()
        invariant
            i <= v@.len(),
            forall|j: int| 0 <= j < i ==> v@[j]@ != s@,
        decreases v@.len() - i,
    {
        if v[i] == *s {
            assert(crate::table::str_views(v@)[i as int] == s@);
            return true;
        }
        i = i + 1;
    }
    proof {
        if crate::table::str_views(v@).contains(s@) {
            let j = choose|j: int| 0 <= j < v@.len() && crate::table::str_views(v@)[j] == s@;
            assert(v@[j]@ == s@);
        }
    }
    false
}

/// Media of any kind larger than a set size limit is never forwarded; photos and videos
/// within the limit always are. A document within the limit is skipped when documents are
/// not allowed; when they are, it is forwarded if no extension list is set, and otherwise
/// exactly when it has a name whose lowercased extension is listed.
pub proof fn law_size_limit_applies_to_every_kind(f: MediaFilterSpec, m: MediaSpec)
    ensures
        f.size_limit > 0 && m.size_bytes > f.size_limit ==> skips(f, m),
        (f.size_limit == 0 || m.size_bytes <= f.size_limit) && (m.media_type == MediaType::Photo
            || m.media_type == MediaType::Video) ==> !skips(f, m),
        (f.size_limit == 0 || m.size_bytes <= f.size_limit) && m.media_type
            == MediaType::Document ==> {
            &&& !f.allow_documents ==> skips(f, m)
            &&& f.allow_documents && f.ext_allowlist.len() == 0 ==> !skips(f, m)
            &&& f.allow_documents && f.ext_allowlist.len() > 0 ==> (skips(f, m) <==> match m.file_name {
                Some(name) => !f.ext_allowlist.contains(lowercase(extension_of(name))),
                None => true,
            })
        },
{
}

} // verus!
