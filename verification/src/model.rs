//! The message model shared by the pipeline: messages, media, formatting entities.
use vstd::prelude::*;

verus! {

/// Kind of a media attachment.
#[derive(Debug, Clone, Copy, PartialEq, Eq, Structural)]
pub enum MediaType {
    Photo,
    Video,
    Document,
}

/// Kind of a formatting entity.
#[derive(Debug, Clone, Copy, PartialEq, Eq, Structural)]
pub enum EntityType {
    Bold,
    Italic,
    Underline,
    Strikethrough,
    Code,
    Pre,
    TextUrl,
    Mention,
    Hashtag,
    Spoiler,
    Blockquote,
    Url,
    Email,
    Phone,
    Cashtag,
    BankCard,
    BotCommand,
    CustomEmoji,
}

/// A formatting entity over a text, positioned in UTF-16 code units.
#[derive(Debug, Clone)]
pub struct TextEntity {
    pub offset: i32,
    pub length: i32,
    pub entity_type: EntityType,
    pub data: Option<String>,
}

/// A media attachment as the pipeline sees it.
#[derive(Debug, Clone)]
pub struct MediaView {
    pub media_type: MediaType,
    pub size_bytes: usize,
    pub file_name: Option<String>,
    pub mime_type: Option<String>,
    pub width: Option<i32>,
    pub height: Option<i32>,
    pub duration: Option<i32>,
    pub media_id: Option<i64>,
    pub access_hash: i64,
    pub file_reference: Vec<u8>,
    pub thumb_type: Option<String>,
    pub thumb_bytes: Option<Vec<u8>>,
    pub spoiler: bool,
}

/// A message of a source chat.
#[derive(Debug, Clone)]
pub struct MessageView {
    pub id: i64,
    pub chat_id: i64,
    pub text: String,
    pub entities: Vec<TextEntity>,
    pub media: Option<MediaView>,
    pub album_id: Option<i64>,
    pub is_edit: bool,
}

/// End of an entity, `offset + length`, as a mathematical integer.
pub open spec fn entity_end(e: TextEntity) -> int {
    e.offset + e.length
}

/// `offset + length` fits in `i32` for every entity.
pub open spec fn entities_fit(es: Seq<TextEntity>) -> bool {
    forall|i: int|
        0 <= i < es.len() ==> i32::MIN <= #[trigger] entity_end(es[i]) <= i32::MAX
}

/// The chars of an optional string.
pub open spec fn opt_str(s: Option<String>) -> Option<Seq<char>> {
    match s {
        Some(v) => Some(v@),
        None => None,
    }
}

/// The bytes of an optional byte vector.
pub open spec fn opt_bytes(s: Option<Vec<u8>>) -> Option<Seq<u8>> {
    match s {
        Some(v) => Some(v@),
        None => None,
    }
}

/// A media attachment as a mathematical value.
pub struct MediaSpec {
    pub media_type: MediaType,
    pub size_bytes: usize,
    pub file_name: Option<Seq<char>>,
    pub mime_type: Option<Seq<char>>,
    pub width: Option<i32>,
    pub height: Option<i32>,
    pub duration: Option<i32>,
    pub media_id: Option<i64>,
    pub access_hash: i64,
    pub file_reference: Seq<u8>,
    pub thumb_type: Option<Seq<char>>,
    pub thumb_bytes: Option<Seq<u8>>,
    pub spoiler: bool,
}

impl View for MediaView {
    type V = MediaSpec;

    open spec fn view(&self) -> MediaSpec {
        MediaSpec {
            media_type: self.media_type,
            size_bytes: self.size_bytes,
            file_name: opt_str(self.file_name),
            mime_type: opt_str(self.mime_type),
            width: self.width,
            height: self.height,
            duration: self.duration,
            media_id: self.media_id,
            access_hash: self.access_hash,
            file_reference: self.file_reference@,
            thumb_type: opt_str(self.thumb_type),
            thumb_bytes: opt_bytes(self.thumb_bytes),
            spoiler: self.spoiler,
        }
    }
}

/// The view of an optional media attachment.
pub open spec fn opt_media(m: Option<MediaView>) -> Option<MediaSpec> {
    match m {
        Some(v) => Some(v@),
        None => None,
    }
}

/// A message as a mathematical value.
pub struct MessageSpec {
    pub id: i64,
    pub chat_id: i64,
    pub text: Seq<char>,
    pub entities: Seq<TextEntity>,
    pub media: Option<MediaSpec>,
    pub album_id: Option<i64>,
    pub is_edit: bool,
}

impl View for MessageView {
    type V = MessageSpec;

    open spec fn view(&self) -> MessageSpec {
        MessageSpec {
            id: self.id,
            chat_id: self.chat_id,
            text: self.text@,
            entities: self.entities@,
            media: opt_media(self.media),
            album_id: self.album_id,
            is_edit: self.is_edit,
        }
    }
}

/// The views of a sequence of messages.
pub open spec fn messages_view(ms: Seq<MessageView>) -> Seq<MessageSpec> {
    ms.map_values(|m: MessageView| m@)
}

fn copy_opt_string(s: &Option<String>) -> (r: Option<String>)
    ensures
        r == *s,
        opt_str(r) == opt_str(*s),
{
    match s {
        Some(v) => Some(v.clone()),
        None => None,
    }
}

fn copy_opt_bytes(s: &Option<Vec<u8>>) -> (r: Option<Vec<u8>>)
    ensures
        opt_bytes(r) == opt_bytes(*s),
{
    match s {
        Some(v) => {
            let c = v.clone();
            assert(c@ =~= v@);
            Some(c)
        },
        None => None,
    }
}

impl TextEntity {
    /// A field-for-field copy.
    pub fn duplicate(&self) -> (r: Self)
        ensures
            r == *self,
    {
        TextEntity {
            offset: self.offset,
            length: self.length,
            entity_type: self.entity_type,
            data: copy_opt_string(&self.data),
        }
    }
}

/// Copies of all entities of `es`, in order.
pub fn copy_entities(es: &[TextEntity]) -> (r: Vec<TextEntity>)
    ensures
        r@ == es@,
{
    let mut r: Vec<TextEntity> = Vec::new();
    let mut i: usize = 0;
    while i < es.len()
        invariant
            i <= es@.len(),
            r@ == es@.take(i as int),
        decreases es@.len() - i,
    {
        r.push(es[i].duplicate());
        i = i + 1;
        assert(r@ =~= es@.take(i as int));
    }
    assert(es@.take(es@.len() as int) =~= es@);
    r
}

fn copy_bytes(v: &Vec<u8>) -> (r: Vec<u8>)
    ensures
        r@ == v@,
{
    let c = v.clone();
    assert(c@ =~= v@);
    c
}

impl MediaView {
    /// A field-for-field copy.
    pub fn duplicate(&self) -> (r: Self)
        ensures
            r@ == self@,
    {
        MediaView {
            media_type: self.media_type,
            size_bytes: self.size_bytes,
            file_name: copy_opt_string(&self.file_name),
            mime_type: copy_opt_string(&self.mime_type),
            width: self.width,
            height: self.height,
            duration: self.duration,
            media_id: self.media_id,
            access_hash: self.access_hash,
            file_reference: copy_bytes(&self.file_reference),
            thumb_type: copy_opt_string(&self.thumb_type),
            thumb_bytes: copy_opt_bytes(&self.thumb_bytes),
            spoiler: self.spoiler,
        }
    }
}

/// A copy of an optional media attachment.
pub fn copy_media(m: &Option<MediaView>) -> (r: Option<MediaView>)
    ensures
        opt_media(r) == opt_media(*m),
{
    match m {
        Some(v) => Some(v.duplicate()),
        None => None,
    }
}

impl MessageView {
    /// A field-for-field copy.
    pub fn duplicate(&self) -> (r: Self)
        ensures
            r@ == self@,
    {
        MessageView {
            id: self.id,
            chat_id: self.chat_id,
            text: self.text.clone(),
            entities: copy_entities(self.entities.as_slice()),
            media: copy_media(&self.media),
            album_id: self.album_id,
            is_edit: self.is_edit,
        }
    }
}

} // verus!
