//! Thumbnails for media deduplication: which media get one, the names of their
//! temporary files, and the difference hash built from a reduced grey image.
use crate::forward::push_digits_u128;
use crate::model::{MediaSpec, MediaType, MediaView};
use crate::signature::{decimal, digits, push_decimal, push_str};
use crate::text::has_prefix;
use crate::utf16::{str_chars, string_from_chars};
use vstd::prelude::*;

verus! {

/// Whether a media attachment is hashed: photos and videos always, documents when
/// their MIME type is an image or video type.
pub open spec fn hashed_media(m: MediaSpec) -> bool {
    match m.media_type {
        MediaType::Photo => true,
        MediaType::Video => true,
        MediaType::Document => match m.mime_type {
            Some(mime) => has_prefix(mime, "image/"@) || has_prefix(mime, "video/"@),
            None => false,
        },
    }
}

/// Whether the thumbnail of `media` is hashed, as `hashed_media` states.
pub fn should_hash(media: &MediaView) -> (r: bool)
    ensures
        r == hashed_media(media@),
{
    match media.media_type {
        MediaType::Photo => true,
        MediaType::Video => true,
        MediaType::Document => match &media.mime_type {
            Some(mime) => {
                let cs = str_chars(mime.as_str());
                let img = str_chars("image/");
                let vid = str_chars("video/");
                crate::text::chars_start_with(cs.as_slice(), img.as_slice())
                    || crate::text::chars_start_with(cs.as_slice(), vid.as_slice())
            },
            None => false,
        },
    }
}

/// The name of a temporary thumbnail file: `thumb_`, the media id when there is one,
/// the time in milliseconds and a sequence number, joined by `_`.
pub open spec fn thumb_file_name(media_id: Option<i64>, ts_ms: u128, seq: u64) -> Seq<char> {
    match media_id {
        Some(id) => "thumb_"@ + decimal(id as int) + seq!['_'] + digits(ts_ms as nat) + seq!['_']
            + digits(seq as nat),
        None => "thumb_"@ + digits(ts_ms as nat) + seq!['_'] + digits(seq as nat),
    }
}

/// Builds the name of a temporary thumbnail file, as `thumb_file_name` states.
pub fn build_thumb_name(media_id: Option<i64>, ts_ms: u128, seq: u64) -> (r: String)
    ensures
        r@ == thumb_file_name(media_id, ts_ms, seq),
{
    let mut out: Vec<char> = Vec::new();
    push_str("thumb_", &mut out);
    match media_id {
        Some(id) => {
            push_decimal(id, &mut out);
            out.push('_');
        },
        None => {},
    }
    push_digits_u128(ts_ms, &mut out);
    out.push('_');
    push_digits_u128(seq as u128, &mut out);
    proof {
        match media_id {
            Some(id) => {
                assert(out@ =~= thumb_file_name(media_id, ts_ms, seq));
            },
            None => {
                assert(out@ =~= thumb_file_name(media_id, ts_ms, seq));
            },
        }
    }
    string_from_chars(out.as_slice())
}

/// Whether a file left in the thumbnail directory is removed: it is a thumbnail file
/// and at least `max_age_ms` old.
pub open spec fn orphan_thumb(name: Seq<char>, age_ms: u64, max_age_ms: u64) -> bool {
    has_prefix(name, "thumb_"@) && age_ms >= max_age_ms
}

/// Whether a leftover file is removed, as `orphan_thumb` states.
pub fn is_orphan_thumb(name: &str, age_ms: u64, max_age_ms: u64) -> (r: bool)
    ensures
        r == orphan_thumb(name@, age_ms, max_age_ms),
{
    let cs = str_chars(name);
    let p = str_chars("thumb_");
    crate::text::chars_start_with(cs.as_slice(), p.as_slice()) && age_ms >= max_age_ms
}

/// Whether bit `b` of `h` is set.
pub open spec fn bit_set(h: u64, b: u64) -> bool {
    (h >> b) & 1u64 == 1u64
}

/// The difference-hash bit for position `b` of a 9-by-8 grey image stored row by row:
/// set when a pixel is brighter than its right neighbour.
pub open spec fn dhash_bit(px: Seq<u8>, b: int) -> bool {
    px[(b / 8) * 9 + b % 8] > px[(b / 8) * 9 + b % 8 + 1]
}

proof fn lemma_set_bit(h: u64, k: u64, b: u64)
    requires
        k < 64,
        b < 64,
    ensures
        bit_set(h | (1u64 << k), b) == (b == k || bit_set(h, b)),
{
    assert(bit_set(h | (1u64 << k), b) == (b == k || bit_set(h, b))) by (bit_vector)
        requires
            k < 64,
            b < 64,
    ;
}

proof fn lemma_zero_bits(b: u64)
    requires
        b < 64,
    ensures
        !bit_set(0, b),
{
    assert(!bit_set(0, b)) by (bit_vector)
        requires
            b < 64,
    ;
}

/// The difference hash of a 9-by-8 grey image given row by row: bit `8 * y + x` is set
/// when pixel `(x, y)` is brighter than pixel `(x + 1, y)`.
pub fn dhash_from_pixels(px: &[u8]) -> (h: u64)
    requires
        px@.len() == 72,
    ensures
        forall|b: u64| b < 64 ==> (#[trigger] bit_set(h, b) <==> dhash_bit(px@, b as int)),
{
    let mut hash: u64 = 0;
    let mut k: u64 = 0;
    assert forall|b: u64| k <= b < 64 implies !#[trigger] bit_set(hash, b) by {
        lemma_zero_bits(b);
    }
    while k < 64
        invariant
            k <= 64,
            px@.len() == 72,
            forall|b: u64| b < k ==> (#[trigger] bit_set(hash, b) <==> dhash_bit(px@, b as int)),
            forall|b: u64| k <= b < 64 ==> !#[trigger] bit_set(hash, b),
        decreases 64 - k,
    {
        let y = k / 8;
        let x = k % 8;
        let idx = (y * 9 + x) as usize;
        let left = px[idx];
        let right = px[idx + 1];
        let ghost before = hash;
        if left > right {
            hash = hash | (1u64 << k);
            proof {
                assert forall|b: u64| b < 64 implies #[trigger] bit_set(hash, b) == (b == k || bit_set(before, b)) by {
                    lemma_set_bit(before, k, b);
                }
            }
        }
        assert(dhash_bit(px@, k as int) == (left > right));
        k = k + 1;
    }
    hash
}

} // verus!
