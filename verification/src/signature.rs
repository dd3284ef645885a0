//! Signatures that identify a media attachment: one by its Telegram id, one by its
//! metadata. Numbers are written in decimal, optional values as Rust's `Debug` shows them.
use crate::model::{MediaSpec, MediaType, MediaView};
use crate::utf16::{str_chars, string_from_chars};
use vstd::prelude::*;

verus! {

/// The ASCII digit for `d < 10`.
pub open spec fn digit_char(d: nat) -> char {
    (48 + d) as char
}

/// Decimal digits of `n`, most significant first, without leading zeros.
pub open spec fn digits(n: nat) -> Seq<char>
    decreases n,
{
    if n < 10 {
        seq![digit_char(n)]
    } else {
        digits(n / 10).push(digit_char(n % 10))
    }
}

/// `x` in decimal, with a leading `-` when negative.
pub open spec fn decimal(x: int) -> Seq<char> {
    if x < 0 {
        seq!['-'] + digits((-x) as nat)
    } else {
        digits(x as nat)
    }
}

/// How `{:?}` shows a string: quoted, with escapes; the result is named, not spelled out.
pub uninterp spec fn debug_quoted(s: Seq<char>) -> Seq<char>;

/// How `{:?}` shows an optional integer.
pub open spec fn debug_opt_int(o: Option<i32>) -> Seq<char> {
    match o {
        Some(v) => "Some("@ + decimal(v as int) + ")"@,
        None => "None"@,
    }
}

/// How `{:?}` shows an optional string.
pub open spec fn debug_opt_str(o: Option<Seq<char>>) -> Seq<char> {
    match o {
        Some(s) => "Some("@ + debug_quoted(s) + ")"@,
        None => "None"@,
    }
}

/// The id of a media attachment, 0 when it has none.
pub open spec fn id_or_zero(m: MediaSpec) -> int {
    match m.media_id {
        Some(id) => id as int,
        None => 0,
    }
}

/// The signature of a media attachment by id, access hash and size (and duration for
/// a video, MIME type for a document).
pub open spec fn media_id_signature(m: MediaSpec) -> Seq<char> {
    let common = "_id_"@ + decimal(id_or_zero(m)) + "_hash_"@ + decimal(m.access_hash as int)
        + "_size_"@ + decimal(m.size_bytes as int);
    match m.media_type {
        MediaType::Photo => "photo"@ + common,
        MediaType::Video => "video"@ + common + "_dur_"@ + debug_opt_int(m.duration),
        MediaType::Document => "doc"@ + common + "_mime_"@ + debug_opt_str(m.mime_type),
    }
}

/// The signature of a media attachment by its metadata.
pub open spec fn media_meta_signature(m: MediaSpec) -> Seq<char> {
    match m.media_type {
        MediaType::Photo => "photo_meta_size_"@ + decimal(m.size_bytes as int) + "_wh_"@
            + debug_opt_int(m.width) + "x"@ + debug_opt_int(m.height),
        MediaType::Video => "video_meta_size_"@ + decimal(m.size_bytes as int) + "_duration_"@
            + debug_opt_int(m.duration),
        MediaType::Document => "doc_meta_size_"@ + decimal(m.size_bytes as int) + "_mime_"@
            + debug_opt_str(m.mime_type),
    }
}

/// `format!("{:?}", s)`: `s` quoted and escaped as `Debug` shows it.
#[verifier::external_body]
fn debug_str(s: &str) -> (r: String)
    ensures
        r@ == debug_quoted(s@),
{
    format!("{:?}", s)
}

/// Appends the decimal digits of `n`.
fn push_digits(n: u64, out: &mut Vec<char>)
    ensures
        final(out)@ == old(out)@ + digits(n as nat),
    decreases n,
{
    if n >= 10 {
        push_digits(n / 10, out);
    }
    let d = (n % 10) as u8;
    out.push((48u8 + d) as char);
    proof {
        if n >= 10 {
            assert(old(out)@ + digits(n as nat) =~= old(out)@ + digits((n / 10) as nat) + seq![
                digit_char((n % 10) as nat),
            ]);
        } else {
            assert(digits(n as nat) =~= seq![digit_char(n as nat)]);
        }
    }
}

/// Appends `x` in decimal.
pub(crate) fn push_decimal(x: i64, out: &mut Vec<char>)
    ensures
        final(out)@ == old(out)@ + decimal(x as int),
{
    if x < 0 {
        out.push('-');
        let mag: u64 = if x == i64::MIN {
            9_223_372_036_854_775_808
        } else {
            (-x) as u64
        };
        push_digits(mag, out);
        assert(final(out)@ =~= old(out)@ + decimal(x as int));
    } else {
        push_digits(x as u64, out);
    }
}

/// Appends the chars of `s`.
pub(crate) fn push_str(s: &str, out: &mut Vec<char>)
    ensures
        final(out)@ == old(out)@ + s@,
{
    let cs = str_chars(s);
    let mut i: usize = 0;
    while i < cs.len()
        invariant
            i <= cs@.len(),
            cs@ == s@,
            out@ == old(out)@ + cs@.take(i as int),
        decreases cs@.len() - i,
    {
        out.push(cs[i]);
        i = i + 1;
        assert(out@ =~= old(out)@ + cs@.take(i as int));
    }
    assert(cs@.take(cs@.len() as int) =~= cs@);
}

/// Appends an optional integer as `{:?}` shows it.
fn push_debug_opt_int(o: Option<i32>, out: &mut Vec<char>)
    ensures
        final(out)@ == old(out)@ + debug_opt_int(o),
{
    match o {
        Some(v) => {
            push_str("Some(", out);
            push_decimal(v as i64, out);
            push_str(")", out);
            assert(final(out)@ =~= old(out)@ + debug_opt_int(o));
        },
        None => {
            push_str("None", out);
        },
    }
}

/// Appends an optional string as `{:?}` shows it.
fn push_debug_opt_str(o: &Option<String>, out: &mut Vec<char>)
    ensures
        final(out)@ == old(out)@ + debug_opt_str(crate::model::opt_str(*o)),
{
    match o {
        Some(s) => {
            push_str("Some(", out);
            let q = debug_str(s.as_str());
            push_str(q.as_str(), out);
            push_str(")", out);
            assert(final(out)@ =~= old(out)@ + debug_opt_str(crate::model::opt_str(*o)));
        },
        None => {
            push_str("None", out);
        },
    }
}

/// The id signature of `media`, as `media_id_signature` states.
pub fn id_signature(media: &MediaView) -> (r: String)
    ensures
        r@ == media_id_signature(media@),
{
    let mut out: Vec<char> = Vec::new();
    let id: i64 = match media.media_id {
        Some(v) => v,
        None => 0,
    };
    match media.media_type {
        MediaType::Photo => push_str("photo", &mut out),
        MediaType::Video => push_str("video", &mut out),
        MediaType::Document => push_str("doc", &mut out),
    }
    let ghost head = out@;
    push_str("_id_", &mut out);
    push_decimal(id, &mut out);
    push_str("_hash_", &mut out);
    push_decimal(media.access_hash, &mut out);
    push_str("_size_", &mut out);
    push_digits(media.size_bytes as u64, &mut out);
    let ghost common = "_id_"@ + decimal(id as int) + "_hash_"@ + decimal(media.access_hash as int)
        + "_size_"@ + decimal(media.size_bytes as int);
    assert(out@ =~= head + common);
    match media.media_type {
        MediaType::Photo => {},
        MediaType::Video => {
            push_str("_dur_", &mut out);
            push_debug_opt_int(media.duration, &mut out);
            assert(out@ =~= head + common + "_dur_"@ + debug_opt_int(media.duration));
        },
        MediaType::Document => {
            push_str("_mime_", &mut out);
            push_debug_opt_str(&media.mime_type, &mut out);
            assert(out@ =~= head + common + "_mime_"@ + debug_opt_str(
                crate::model::opt_str(media.mime_type),
            ));
        },
    }
    string_from_chars(out.as_slice())
}

/// The metadata signature of `media`, as `media_meta_signature` states.
pub fn meta_signature(media: &MediaView) -> (r: String)
    ensures
        r@ == media_meta_signature(media@),
{
    let mut out: Vec<char> = Vec::new();
    match media.media_type {
        MediaType::Photo => {
            push_str("photo_meta_size_", &mut out);
            push_digits(media.size_bytes as u64, &mut out);
            push_str("_wh_", &mut out);
            push_debug_opt_int(media.width, &mut out);
            push_str("x", &mut out);
            push_debug_opt_int(media.height, &mut out);
            assert(out@ =~= media_meta_signature(media@));
        },
        MediaType::Video => {
            push_str("video_meta_size_", &mut out);
            push_digits(media.size_bytes as u64, &mut out);
            push_str("_duration_", &mut out);
            push_debug_opt_int(media.duration, &mut out);
            assert(out@ =~= media_meta_signature(media@));
        },
        MediaType::Document => {
            push_str("doc_meta_size_", &mut out);
            push_digits(media.size_bytes as u64, &mut out);
            push_str("_mime_", &mut out);
            push_debug_opt_str(&media.mime_type, &mut out);
            assert(out@ =~= media_meta_signature(media@));
        },
    }
    string_from_chars(out.as_slice())
}

} // verus!
