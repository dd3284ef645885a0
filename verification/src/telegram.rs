//! How Telegram's data is read into the message model: which peer a dialog id names,
//! which thumbnail of a photo is kept, how documents become media, which messages are
//! dropped, how history is paged, and when the update stream gives up.
use crate::model::{MediaSpec, MediaType, MediaView, opt_str};
use crate::text::{has_prefix, str_is_blank, trim_ws};
use crate::utf16::str_chars;
use vstd::prelude::*;

verus! {

/// The kind of peer behind a dialog id, with the peer's own id.
#[derive(Debug, Clone, Copy, PartialEq, Eq, Structural)]
pub enum DialogPeer {
    Channel(i64),
    Chat(i64),
    User(i64),
}

/// The peer of a dialog id as the Bot API numbers them: ids at or below
/// `-1000000000000` are channels, other negative ids basic groups, the rest users.
pub open spec fn dialog_peer_of(dialog_id: i64) -> DialogPeer {
    if dialog_id <= -1000000000000 {
        DialogPeer::Channel((-dialog_id - 1000000000000) as i64)
    } else if dialog_id < 0 {
        DialogPeer::Chat((-dialog_id) as i64)
    } else {
        DialogPeer::User(dialog_id)
    }
}

/// The peer of a dialog id, as `dialog_peer_of` states.
pub fn dialog_peer(dialog_id: i64) -> (r: DialogPeer)
    requires
        dialog_id > i64::MIN,
    ensures
        r == dialog_peer_of(dialog_id),
{
    if dialog_id <= -1000000000000 {
        DialogPeer::Channel(-dialog_id - 1000000000000)
    } else if dialog_id < 0 {
        DialogPeer::Chat(-dialog_id)
    } else {
        DialogPeer::User(dialog_id)
    }
}

/// The kinds of a photo size.
#[derive(Debug, Clone, Copy, PartialEq, Eq, Structural)]
pub enum ThumbKind {
    Empty,
    Size,
    Cached,
    Stripped,
    Progressive,
    Path,
}

/// Whether a size of this kind can be a thumbnail at all.
pub open spec fn usable_kind(k: ThumbKind) -> bool {
    k != ThumbKind::Empty
}

/// Whether a size of this kind is a normal image size.
pub open spec fn normal_kind(k: ThumbKind) -> bool {
    k == ThumbKind::Size || k == ThumbKind::Progressive || k == ThumbKind::Cached
}

/// Whether index `i` holds the first smallest size among those that `ok` admits.
pub open spec fn first_smallest(sizes: Seq<(ThumbKind, usize)>, i: int, ok: spec_fn(ThumbKind) -> bool) -> bool {
    &&& 0 <= i < sizes.len()
    &&& ok(sizes[i].0)
    &&& forall|j: int| 0 <= j < sizes.len() && ok(sizes[j].0) ==> sizes[i].1 <= #[trigger] sizes[j].1
    &&& forall|j: int| 0 <= j < i && ok(sizes[j].0) ==> sizes[i].1 < #[trigger] sizes[j].1
}

/// The thumbnail kept of a photo's sizes: the first smallest normal size, or, when there
/// is none, the first smallest size that is not empty; none when all are empty.
pub open spec fn thumb_choice(sizes: Seq<(ThumbKind, usize)>, r: Option<usize>) -> bool {
    let has_normal = exists|j: int| 0 <= j < sizes.len() && normal_kind(#[trigger] sizes[j].0);
    let has_usable = exists|j: int| 0 <= j < sizes.len() && usable_kind(#[trigger] sizes[j].0);
    match r {
        None => !has_usable,
        Some(i) => if has_normal {
            first_smallest(sizes, i as int, |k: ThumbKind| normal_kind(k))
        } else {
            first_smallest(sizes, i as int, |k: ThumbKind| usable_kind(k))
        },
    }
}

fn smallest_where(sizes: &[(ThumbKind, usize)], normal: bool) -> (r: Option<usize>)
    ensures
        ({
            let ok = if normal {
                |k: ThumbKind| normal_kind(k)
            } else {
                |k: ThumbKind| usable_kind(k)
            };
            match r {
                None => forall|j: int| 0 <= j < sizes@.len() ==> !ok(#[trigger] sizes@[j].0),
                Some(i) => first_smallest(sizes@, i as int, ok),
            }
        }),
{
    let ghost ok = if normal {
        |k: ThumbKind| normal_kind(k)
    } else {
        |k: ThumbKind| usable_kind(k)
    };
    let mut best: Option<usize> = None;
    let mut i: usize = 0;
    while i < sizes.len()
        invariant
            i <= sizes@.len(),
            ok == (if normal {
                |k: ThumbKind| normal_kind(k)
            } else {
                |k: ThumbKind| usable_kind(k)
            }),
            match best {
                None => forall|j: int| 0 <= j < i ==> !ok(#[trigger] sizes@[j].0),
                Some(b) => b < i && ok(sizes@[b as int].0) && (forall|j: int|
                    0 <= j < i && ok(sizes@[j].0) ==> sizes@[b as int].1 <= #[trigger] sizes@[j].1)
                    && (forall|j: int| 0 <= j < b && ok(sizes@[j].0) ==> sizes@[b as int].1 < #[trigger] sizes@[j].1),
            },
        decreases sizes@.len() - i,
    {
        let (k, s) = sizes[i];
        let admitted = if normal {
            k == ThumbKind::Size || k == ThumbKind::Progressive || k == ThumbKind::Cached
        } else {
            k != ThumbKind::Empty
        };
        assert(admitted == ok(sizes@[i as int].0));
        if admitted {
            match best {
                None => {
                    best = Some(i);
                },
                Some(b) => {
                    if s < sizes[b].1 {
                        best = Some(i);
                    }
                },
            }
        }
        i = i + 1;
    }
    best
}

/// Which thumbnail of a photo's sizes is kept, as `thumb_choice` states.
pub fn pick_thumb(sizes: &[(ThumbKind, usize)]) -> (r: Option<usize>)
    ensures
        thumb_choice(sizes@, r),
{
    match smallest_where(sizes, true) {
        Some(i) => {
            proof {
                assert(normal_kind(sizes@[i as int].0));
            }
            Some(i)
        },
        None => {
            let r = smallest_where(sizes, false);
            proof {
                assert(!exists|j: int| 0 <= j < sizes@.len() && normal_kind(#[trigger] sizes@[j].0));
                if r is None {
                    assert(!exists|j: int| 0 <= j < sizes@.len() && usable_kind(#[trigger] sizes@[j].0));
                }
            }
            r
        },
    }
}

/// A document attachment as Telegram describes it.
pub struct RawDocument {
    pub id: i64,
    pub access_hash: i64,
    pub file_reference: Vec<u8>,
    pub size: i64,
    pub name: String,
    pub mime_type: Option<String>,
    pub width: i32,
    pub height: i32,
    pub duration: Option<i32>,
    pub thumb_type: Option<String>,
    pub thumb_bytes: Option<Vec<u8>>,
    pub spoiler: bool,
}

/// The media a document becomes: a video when its MIME type is a video type, else a
/// document; an empty name is no name, and a zero width or height is none.
pub open spec fn document_media_of(d: RawDocument) -> MediaSpec {
    MediaSpec {
        media_type: match opt_str(d.mime_type) {
            Some(m) => if has_prefix(m, "video/"@) {
                MediaType::Video
            } else {
                MediaType::Document
            },
            None => MediaType::Document,
        },
        size_bytes: d.size as usize,
        file_name: if d.name@.len() == 0 {
            None
        } else {
            Some(d.name@)
        },
        mime_type: opt_str(d.mime_type),
        width: if d.width == 0 {
            None
        } else {
            Some(d.width)
        },
        height: if d.height == 0 {
            None
        } else {
            Some(d.height)
        },
        duration: d.duration,
        media_id: Some(d.id),
        access_hash: d.access_hash,
        file_reference: d.file_reference@,
        thumb_type: opt_str(d.thumb_type),
        thumb_bytes: crate::model::opt_bytes(d.thumb_bytes),
        spoiler: d.spoiler,
    }
}

/// The media of a document, as `document_media_of` states (the size taken as a cast
/// does).
pub fn document_media(d: RawDocument) -> (r: MediaView)
    ensures
        r@ == document_media_of(d),
{
    let ghost dv = d;
    let is_video = match &d.mime_type {
        Some(m) => {
            let cs = str_chars(m.as_str());
            let p = str_chars("video/");
            crate::text::chars_start_with(cs.as_slice(), p.as_slice())
        },
        None => false,
    };
    let name_empty = d.name.as_str().unicode_len() == 0;
    let r = MediaView {
        media_type: if is_video {
            MediaType::Video
        } else {
            MediaType::Document
        },
        size_bytes: d.size as usize,
        file_name: if name_empty {
            None
        } else {
            Some(d.name)
        },
        mime_type: d.mime_type,
        width: if d.width == 0 {
            None
        } else {
            Some(d.width)
        },
        height: if d.height == 0 {
            None
        } else {
            Some(d.height)
        },
        duration: d.duration,
        media_id: Some(d.id),
        access_hash: d.access_hash,
        file_reference: d.file_reference,
        thumb_type: d.thumb_type,
        thumb_bytes: d.thumb_bytes,
        spoiler: d.spoiler,
    };
    assert(r@ =~= document_media_of(dv));
    r
}

/// Whether a converted message is kept: it has media, or text that is not blank.
pub fn keeps_message(text: &str, has_media: bool) -> (r: bool)
    ensures
        r == (has_media || trim_ws(text@).len() > 0),
{
    has_media || !str_is_blank(text)
}

/// Paging through a chat's history, newest first, down to a known id.
#[derive(Debug, Clone, Copy, PartialEq, Eq, Structural)]
pub struct HistoryScan {
    /// Messages seen on the current page.
    pub page_count: usize,
    /// The id the next page starts below (0 for the newest page).
    pub offset_id: i32,
    /// Whether a message at or below the known id was reached.
    pub reached_min: bool,
}

impl HistoryScan {
    /// A scan before its first page.
    pub fn new() -> (r: Self)
        ensures
            r == (HistoryScan { page_count: 0, offset_id: 0, reached_min: false }),
    {
        HistoryScan { page_count: 0, offset_id: 0, reached_min: false }
    }

    /// Starts a page.
    pub fn start_page(&mut self)
        ensures
            *final(self) == (HistoryScan { page_count: 0, reached_min: false, ..*old(self) }),
    {
        self.page_count = 0;
        self.reached_min = false;
    }

    /// Looks at message `id` of the page: false once it is at or below `min_id`, which
    /// ends the scan; otherwise the message is taken and the next page starts below it.
    pub fn see(&mut self, id: i32, min_id: i64) -> (take: bool)
        requires
            old(self).page_count < usize::MAX,
        ensures
            final(self).page_count == old(self).page_count + 1,
            take == (id as i64 > min_id),
            final(self).reached_min == (old(self).reached_min || !take),
            final(self).offset_id == if take {
                id
            } else {
                old(self).offset_id
            },
    {
        self.page_count = self.page_count + 1;
        if (id as i64) <= min_id {
            self.reached_min = true;
            false
        } else {
            self.offset_id = id;
            true
        }
    }

    /// Whether the scan is over after a page: the known id was reached, or the page
    /// held fewer than `limit` messages.
    pub fn finished(&self, limit: usize) -> (r: bool)
        ensures
            r == (self.reached_min || self.page_count < limit),
    {
        self.reached_min || self.page_count < limit
    }
}

/// The update stream gives up after this many errors in a row.
pub const MAX_CONSECUTIVE_ERRORS: u32 = 10;

/// What the update stream does after an error.
#[derive(Debug, Clone, Copy, PartialEq, Eq, Structural)]
pub enum StreamAction {
    /// Pause a second and read on.
    Retry,
    /// Report the dead connection and stop.
    ReportCrash,
    /// Stop: too many errors in a row.
    Stop,
}

/// The step after one more error of the update stream, with the new error count: a
/// dead connection is reported; the tenth error in a row stops the stream.
pub fn stream_error_step(consecutive: u32, runner_alive: bool) -> (r: (u32, StreamAction))
    ensures
        r.0 == if consecutive < u32::MAX {
            consecutive + 1
        } else {
            consecutive as int
        },
        r.1 == if !runner_alive {
            StreamAction::ReportCrash
        } else if r.0 >= MAX_CONSECUTIVE_ERRORS {
            StreamAction::Stop
        } else {
            StreamAction::Retry
        },
{
    let n = if consecutive < u32::MAX {
        consecutive + 1
    } else {
        consecutive
    };
    if !runner_alive {
        (n, StreamAction::ReportCrash)
    } else if n >= MAX_CONSECUTIVE_ERRORS {
        (n, StreamAction::Stop)
    } else {
        (n, StreamAction::Retry)
    }
}

} // verus!
