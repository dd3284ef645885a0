//! The message pipeline: replacement rules, keyword and media filters, deduplication
//! and the header and footer appended to forwarded texts. Thumbnail hashing is done by
//! the caller between steps, when a step asks for it.
use crate::dedup::{
    candidate_for, commit_views, is_duplicate, media_views, staged, thumbs_duplicate,
    CommitSpec, DedupCandidate, DedupCommitInfo, DedupDecision, DedupModel, DedupState,
    MessageDeduplicator,
};
use crate::filter::{verdict, KeywordFilter};
use crate::media_filter::{skips, MediaFilter};
use crate::model::{MediaSpec, MediaView, MessageView, TextEntity};
use crate::replace::{apply_rules, wrapped_end, TextReplacer};
use crate::text::{is_blank, sat_sub, str_is_blank, trim_ws};
use crate::utf16::{
    chars_index_at_utf16, chars_within_utf16, str_chars, string_from_chars, utf16_len,
    utf16_units,
};
use vstd::prelude::*;

verus! {

/// Text put before and after forwarded texts.
pub struct ContentAppender {
    pub header: String,
    pub footer: String,
}

impl ContentAppender {
    /// No header, no footer.
    pub fn new() -> (r: Self)
        ensures
            r.header@ == Seq::<char>::empty(),
            r.footer@ == Seq::<char>::empty(),
    {
        ContentAppender { header: String::new(), footer: String::new() }
    }

    /// The header and footer of a header/footer file; a field that is missing, or is
    /// not a string, is empty.
    pub fn from_file(file: AppenderFile) -> (r: Self)
        ensures
            r.header@ == text_or_empty(file.header),
            r.footer@ == text_or_empty(file.footer),
    {
        let header = match file.header {
            Some(h) => h,
            None => String::new(),
        };
        let footer = match file.footer {
            Some(f) => f,
            None => String::new(),
        };
        ContentAppender { header, footer }
    }
}

/// A header/footer file as read: each field is `None` when it is missing or is not a
/// string.
pub struct AppenderFile {
    pub header: Option<String>,
    pub footer: Option<String>,
}

/// The text of a string field, or the empty text when there is none.
pub open spec fn text_or_empty(field: Option<String>) -> Seq<char> {
    match field {
        Some(t) => t@,
        None => Seq::empty(),
    }
}

/// Entities moved by `by` UTF-16 units (wrapping, as a release build does).
pub open spec fn shifted_all(es: Seq<TextEntity>, by: i32) -> Seq<TextEntity> {
    es.map_values(|e: TextEntity| TextEntity { offset: e.offset.wrapping_add(by), ..e })
}

/// The entities that end (as `usize`) within the first `avail` UTF-16 units.
pub open spec fn ending_within(es: Seq<TextEntity>, avail: int) -> Seq<TextEntity>
    decreases es.len(),
{
    if es.len() == 0 {
        es
    } else {
        let prev = ending_within(es.drop_last(), avail);
        if (wrapped_end(es.last()) as usize) <= avail {
            prev.push(es.last())
        } else {
            prev
        }
    }
}

/// A forwarded text with the header (and a blank line) before it and the footer (after
/// a blank line) behind it. Without media, a result over the limit (header, footer and
/// both blank lines counted) keeps as much of the text as fits with `...` and the
/// entities that end within it; when nothing of the text fits, only header and footer
/// remain. A blank text with no header and footer gives an
/// empty text.
pub open spec fn appended(
    header: Seq<char>,
    footer: Seq<char>,
    text: Seq<char>,
    es: Seq<TextEntity>,
    has_media: bool,
    limit_with_media: usize,
    limit_text: usize,
) -> (Seq<char>, Seq<TextEntity>) {
    if trim_ws(text).len() == 0 && header.len() == 0 && footer.len() == 0 {
        (Seq::empty(), es)
    } else {
        let limit = if has_media {
            limit_with_media
        } else {
            limit_text
        };
        let head = if header.len() > 0 {
            header + "\n\n"@
        } else {
            Seq::empty()
        };
        let es1 = if header.len() > 0 {
            shifted_all(es, (utf16_units(header) + 2) as i32)
        } else {
            es
        };
        let head16 = utf16_units(head);
        let foot16: nat = if footer.len() > 0 {
            utf16_units(footer) + 2
        } else {
            0
        };
        let (body, es2) = if head16 + utf16_units(text) + foot16 > limit && !has_media {
            let avail = sat_sub(sat_sub(sat_sub(limit as int, head16 as int), foot16 as int), 3);
            if avail > 0 {
                (text.take(chars_within_utf16(text, avail) as int) + "..."@, ending_within(es1, avail))
            } else {
                (Seq::empty(), Seq::empty())
            }
        } else {
            (text, es1)
        };
        let tail = if footer.len() > 0 {
            "\n\n"@ + footer
        } else {
            Seq::empty()
        };
        (head + body + tail, es2)
    }
}

/// Without media, the text with header and footer appended fits the text limit in
/// UTF-16 units, whenever the limit leaves room for header, footer, both blank lines
/// and `...`.
pub proof fn law_appended_text_fits(
    header: Seq<char>,
    footer: Seq<char>,
    text: Seq<char>,
    es: Seq<TextEntity>,
    limit_with_media: usize,
    limit_text: usize,
)
    requires
        utf16_units(header) + 2 + utf16_units(footer) + 2 + 3 <= limit_text,
    ensures
        utf16_units(appended(header, footer, text, es, false, limit_with_media, limit_text).0) <= limit_text,
{
    reveal_strlit("\n\n");
    reveal_strlit("...");
    let r = appended(header, footer, text, es, false, limit_with_media, limit_text).0;
    if trim_ws(text).len() == 0 && header.len() == 0 && footer.len() == 0 {
        assert(r.len() == 0);
        assert(utf16_units(r) == 0);
    } else {
        let head = if header.len() > 0 {
            header + "\n\n"@
        } else {
            Seq::empty()
        };
        let tail = if footer.len() > 0 {
            "\n\n"@ + footer
        } else {
            Seq::empty()
        };
        lemma_two_newlines();
        if header.len() > 0 {
            crate::utf16::lemma_utf16_concat(header, "\n\n"@);
        }
        if footer.len() > 0 {
            crate::utf16::lemma_utf16_concat("\n\n"@, footer);
        }
        assert(utf16_units(Seq::<char>::empty()) == 0);
        let head16 = utf16_units(head);
        let foot16: nat = if footer.len() > 0 {
            utf16_units(footer) + 2
        } else {
            0
        };
        assert(utf16_units(tail) == foot16);
        if head16 + utf16_units(text) + foot16 > limit_text {
            let avail = sat_sub(sat_sub(sat_sub(limit_text as int, head16 as int), foot16 as int), 3);
            assert(avail == limit_text - head16 - foot16 - 3);
            if avail > 0 {
                let k = chars_within_utf16(text, avail);
                crate::utf16::lemma_chars_within_utf16(text, avail);
                let body = text.take(k as int) + "..."@;
                crate::utf16::lemma_utf16_concat(text.take(k as int), "..."@);
                lemma_three_dots();
                crate::utf16::lemma_utf16_concat(head, body);
                crate::utf16::lemma_utf16_concat(head + body, tail);
                assert(r == head + body + tail);
            } else {
                crate::utf16::lemma_utf16_concat(head, Seq::<char>::empty());
                crate::utf16::lemma_utf16_concat(head + Seq::<char>::empty(), tail);
                assert(r == head + Seq::<char>::empty() + tail);
            }
        } else {
            crate::utf16::lemma_utf16_concat(head, text);
            crate::utf16::lemma_utf16_concat(head + text, tail);
            assert(r == head + text + tail);
        }
    }
}

proof fn lemma_two_newlines()
    ensures
        utf16_units("\n\n"@) == 2,
{
    reveal_strlit("\n\n");
    crate::utf16::lemma_utf16_concat(seq!['\n'], seq!['\n']);
    crate::utf16::lemma_single('\n');
    assert(seq!['\n'] + seq!['\n'] =~= "\n\n"@);
}

proof fn lemma_three_dots()
    ensures
        utf16_units("..."@) == 3,
{
    reveal_strlit("...");
    crate::utf16::lemma_utf16_concat(seq!['.'], seq!['.']);
    crate::utf16::lemma_utf16_concat(seq!['.', '.'], seq!['.']);
    crate::utf16::lemma_single('.');
    assert(seq!['.'] + seq!['.'] =~= seq!['.', '.']);
    assert(seq!['.', '.'] + seq!['.'] =~= "..."@);
}

/// Appends the chars of `s` to `out`.
fn push_all(out: &mut Vec<char>, s: &Vec<char>)
    ensures
        final(out)@ == old(out)@ + s@,
{
    let mut i: usize = 0;
    while i < s.len()
        invariant
            i <= s@.len(),
            out@ =~= old(out)@ + s@.take(i as int),
        decreases s@.len() - i,
    {
        out.push(s[i]);
        i = i + 1;
    }
    assert(s@.take(i as int) =~= s@);
}

/// The result of processing a message.
pub struct PipelineResult {
    pub should_forward: bool,
    pub text: String,
    pub entities: Vec<TextEntity>,
    pub media_list: Vec<MediaView>,
    pub dedup_info: Option<DedupCommitInfo>,
}

/// A refused message: nothing to forward.
pub open spec fn is_refusal(r: PipelineResult) -> bool {
    &&& !r.should_forward
    &&& r.text@ == Seq::<char>::empty()
    &&& r.entities@ == Seq::<TextEntity>::empty()
    &&& r.media_list@ == Seq::<MediaView>::empty()
    &&& r.dedup_info is None
}

fn refusal() -> (r: PipelineResult)
    ensures
        is_refusal(r),
{
    PipelineResult {
        should_forward: false,
        text: String::new(),
        entities: Vec::new(),
        media_list: Vec::new(),
        dedup_info: None,
    }
}

/// A message between pipeline steps, waiting for the thumbnail hashes of its media.
pub struct PendingProcess {
    pub text: String,
    pub entities: Vec<TextEntity>,
    pub media_list: Vec<MediaView>,
    pub apply_append: bool,
    pub candidate: Option<DedupCandidate>,
}

/// What a pipeline step gives back: a result, or a message whose thumbnails the caller
/// hashes (possibly filling in its media) before it calls `process_resume`.
pub enum ProcessStep {
    Done(PipelineResult),
    HashThumbs(PendingProcess),
}

/// The parts of a pipeline.
pub struct PipelineConfig {
    pub filter: KeywordFilter,
    pub replacer: TextReplacer,
    pub deduplicator: MessageDeduplicator,
    pub appender: ContentAppender,
    pub media_filter: MediaFilter,
    pub has_thumb_hasher: bool,
    pub append_limit_with_media: usize,
    pub append_limit_text: usize,
}

/// Replacement, filtering, deduplication and appending for messages to forward.
pub struct Pipeline {
    pub filter: KeywordFilter,
    pub replacer: TextReplacer,
    pub deduplicator: MessageDeduplicator,
    pub appender: ContentAppender,
    pub media_filter: MediaFilter,
    pub has_thumb_hasher: bool,
    pub append_limit_with_media: usize,
    pub append_limit_text: usize,
}

/// The text a pipeline forwards for `text`, `es` and whether media go with it.
pub open spec fn pipeline_appended(p: Pipeline, text: Seq<char>, es: Seq<TextEntity>, has_media: bool) -> (
    Seq<char>,
    Seq<TextEntity>,
) {
    appended(
        p.appender.header@,
        p.appender.footer@,
        text,
        es,
        has_media,
        p.append_limit_with_media,
        p.append_limit_text,
    )
}

/// The deduplicator after `info` was staged.
pub open spec fn staged_with(d: DedupModel, info: CommitSpec) -> DedupModel {
    DedupModel {
        candidates: d.candidates.push(info),
        ..staged(d, info.candidate, info.thumb_hashes)
    }
}

/// A forwarded result: the (appended) text, the media, and the staged candidate.
pub open spec fn is_forward(
    p: Pipeline,
    r: PipelineResult,
    text: Seq<char>,
    es: Seq<TextEntity>,
    media: Seq<MediaSpec>,
    apply_append: bool,
    info: CommitSpec,
) -> bool {
    let (t, e) = if apply_append {
        pipeline_appended(p, text, es, media.len() > 0)
    } else {
        (text, es)
    };
    &&& r.should_forward
    &&& r.text@ == t
    &&& r.entities@ == e
    &&& media_views(r.media_list@) == media
    &&& r.dedup_info matches Some(i) && i@ == info
}

/// How a deduplication step ends for a message that passed the filters, given the
/// thumbnail hashes computed before the check (if any): a duplicate is refused with
/// nothing staged; otherwise the candidate is staged with those hashes and forwarded,
/// unless hashes are still needed and a hasher exists, in which case they are asked for.
pub open spec fn dedup_outcome(
    old_p: Pipeline,
    new_p: Pipeline,
    text: Seq<char>,
    es: Seq<TextEntity>,
    media: Seq<MediaSpec>,
    apply_append: bool,
    hashes: Option<Seq<(u64, u64)>>,
    r: ProcessStep,
) -> bool {
    let d = old_p.deduplicator@;
    let c = candidate_for(text, media);
    if is_duplicate(d, text, media) {
        r matches ProcessStep::Done(res) && is_refusal(res) && new_p == old_p
    } else if media.len() > 0 && hashes is None && old_p.has_thumb_hasher {
        &&& r matches ProcessStep::HashThumbs(pp)
        &&& pp.text@ == text
        &&& pp.entities@ == es
        &&& media_views(pp.media_list@) == media
        &&& pp.apply_append == apply_append
        &&& pp.candidate matches Some(cc) && cc@ == c
        &&& new_p == old_p
    } else {
        let hs = match hashes {
            Some(h) => if media.len() > 0 {
                h
            } else {
                Seq::empty()
            },
            None => Seq::empty(),
        };
        let info = CommitSpec { candidate: c, thumb_hashes: hs };
        &&& r matches ProcessStep::Done(res) && is_forward(
            old_p,
            res,
            text,
            es,
            media,
            apply_append,
            info,
        )
        &&& new_p.deduplicator@ == staged_with(d, info)
        &&& new_p.deduplicator.wf()
        &&& same_but_dedup(old_p, new_p)
    }
}

/// Everything but the deduplicator is as in `a`.
pub open spec fn same_but_dedup(a: Pipeline, b: Pipeline) -> bool {
    &&& b.filter == a.filter
    &&& b.replacer == a.replacer
    &&& b.appender == a.appender
    &&& b.media_filter == a.media_filter
    &&& b.has_thumb_hasher == a.has_thumb_hasher
    &&& b.append_limit_with_media == a.append_limit_with_media
    &&& b.append_limit_text == a.append_limit_text
}

impl Pipeline {
    /// The parts are ready for use.
    pub open spec fn wf(&self) -> bool {
        self.deduplicator.wf() && self.replacer.wf()
    }

    /// A pipeline of the given parts.
    pub fn new(config: PipelineConfig) -> (r: Self)
        ensures
            r.filter == config.filter,
            r.replacer == config.replacer,
            r.deduplicator == config.deduplicator,
            r.appender == config.appender,
            r.media_filter == config.media_filter,
            r.has_thumb_hasher == config.has_thumb_hasher,
            r.append_limit_with_media == config.append_limit_with_media,
            r.append_limit_text == config.append_limit_text,
    {
        Pipeline {
            filter: config.filter,
            replacer: config.replacer,
            deduplicator: config.deduplicator,
            appender: config.appender,
            media_filter: config.media_filter,
            has_thumb_hasher: config.has_thumb_hasher,
            append_limit_with_media: config.append_limit_with_media,
            append_limit_text: config.append_limit_text,
        }
    }

    /// Commits a staged candidate once its message was sent.
    pub fn commit_dedup(&mut self, info: DedupCommitInfo)
        requires
            old(self).wf(),
        ensures
            final(self).wf(),
            final(self).deduplicator@ == crate::dedup::committed(old(self).deduplicator@, info@),
            same_but_dedup(*old(self), *final(self)),
    {
        self.deduplicator.commit_pending(info);
    }

    /// Drops a staged candidate whose message was not sent.
    pub fn rollback_dedup(&mut self, info: DedupCommitInfo)
        requires
            old(self).wf(),
        ensures
            final(self).wf(),
            final(self).deduplicator@ == crate::dedup::rolled_back(old(self).deduplicator@, info@),
            same_but_dedup(*old(self), *final(self)),
    {
        self.deduplicator.rollback_pending(info);
    }

    /// A copy of the deduplication history.
    pub fn dedup_snapshot(&self) -> (r: DedupState)
        ensures
            r.fingerprints@ == self.deduplicator@.fingerprints,
            r.media_thumb_hashes@ == self.deduplicator@.thumbs,
    {
        self.deduplicator.snapshot()
    }

    /// Hands out every staged candidate.
    pub fn take_all_pending(&mut self) -> (r: Vec<DedupCommitInfo>)
        requires
            old(self).wf(),
        ensures
            final(self).wf(),
            commit_views(r@) == old(self).deduplicator@.candidates,
            same_but_dedup(*old(self), *final(self)),
    {
        self.deduplicator.take_all_pending()
    }

    /// Settles the staged candidates of a task once its send is over: each is committed,
    /// in order, when the send went through, and rolled back otherwise.
    pub fn settle_dedup(&mut self, infos: Vec<DedupCommitInfo>, sent: bool)
        requires
            old(self).wf(),
        ensures
            final(self).wf(),
            final(self).deduplicator@ == if sent {
                crate::dedup::committed_all(old(self).deduplicator@, commit_views(infos@))
            } else {
                crate::dedup::rolled_back_all(old(self).deduplicator@, commit_views(infos@))
            },
            same_but_dedup(*old(self), *final(self)),
    {
        if sent {
            self.deduplicator.commit_all_pending(infos.as_slice());
        } else {
            self.deduplicator.rollback_all_pending(infos.as_slice());
        }
    }

    /// Commits each of `infos`, in order.
    pub fn commit_all_pending(&mut self, infos: &[DedupCommitInfo])
        requires
            old(self).wf(),
        ensures
            final(self).wf(),
            final(self).deduplicator@ == crate::dedup::committed_all(
                old(self).deduplicator@,
                commit_views(infos@),
            ),
            same_but_dedup(*old(self), *final(self)),
    {
        self.deduplicator.commit_all_pending(infos);
    }

    /// The text to forward, with header and footer, as `appended` states.
    pub fn append_content(&self, text: &str, entities: Vec<TextEntity>, has_media: bool) -> (r: (
        String,
        Vec<TextEntity>,
    ))
        ensures
            (r.0@, r.1@) == pipeline_appended(*self, text@, entities@, has_media),
    {
        let header = str_chars(self.appender.header.as_str());
        let footer = str_chars(self.appender.footer.as_str());
        let blank = str_is_blank(text);
        if blank && header.len() == 0 && footer.len() == 0 {
            return (String::new(), entities);
        }
        let limit = if has_media {
            self.append_limit_with_media
        } else {
            self.append_limit_text
        };
        let mut result: Vec<char> = Vec::new();
        let mut entities = entities;
        let mut head16: usize = 0;
        if header.len() > 0 {
            push_all(&mut result, &header);
            result.push('\n');
            result.push('\n');
            let hl = utf16_len(self.appender.header.as_str());
            proof {
                crate::utf16::lemma_utf16_le_utf8(header@);
            }
            let by = #[verifier::truncate] ((hl as u128 + 2) as i32);
            entities = shift_entities(entities, by);
            head16 = hl + 2;
            assert(utf16_units(header@ + "\n\n"@) == hl + 2) by {
                crate::utf16::lemma_utf16_concat(header@, "\n\n"@);
                reveal_strlit("\n\n");
                crate::utf16::lemma_utf16_concat(seq!['\n'], seq!['\n']);
                crate::utf16::lemma_single('\n');
                assert(seq!['\n'] + seq!['\n'] =~= "\n\n"@);
            }
        }
        assert(result@ =~= (if header@.len() > 0 {
            header@ + "\n\n"@
        } else {
            Seq::empty()
        })) by {
            reveal_strlit("\n\n");
        }
        let body16 = utf16_len(text);
        let foot16: usize = if footer.len() > 0 {
            let fl = utf16_len(self.appender.footer.as_str());
            proof {
                crate::utf16::lemma_utf16_le_utf8(footer@);
            }
            fl + 2
        } else {
            0
        };
        let total: u128 = head16 as u128 + body16 as u128 + foot16 as u128;
        if total > limit as u128 && !has_media {
            let avail = sat(sat(sat(limit, head16), foot16), 3);
            if avail > 0 {
                let cs = str_chars(text);
                let k = chars_index_at_utf16(cs.as_slice(), avail);
                let mut i: usize = 0;
                let ghost before = result@;
                while i < k
                    invariant
                        k <= cs@.len(),
                        i <= k,
                        result@ =~= before + cs@.take(i as int),
                    decreases k - i,
                {
                    result.push(cs[i]);
                    i = i + 1;
                }
                result.push('.');
                result.push('.');
                result.push('.');
                assert(result@ =~= before + (cs@.take(k as int) + "..."@)) by {
                    reveal_strlit("...");
                }
                entities = keep_ending_within(entities, avail);
            } else {
                entities = Vec::new();
            }
        } else {
            let cs = str_chars(text);
            push_all(&mut result, &cs);
        }
        if footer.len() > 0 {
            let ghost before = result@;
            result.push('\n');
            result.push('\n');
            push_all(&mut result, &footer);
            assert(result@ =~= before + ("\n\n"@ + footer@)) by {
                reveal_strlit("\n\n");
            }
        }
        (string_from_chars(result.as_slice()), entities)
    }
}

/// `a - b`, or 0 when `b > a`.
fn sat(a: usize, b: usize) -> (r: usize)
    ensures
        r == sat_sub(a as int, b as int),
{
    if a >= b {
        a - b
    } else {
        0
    }
}

/// Entities moved by `by`, as `shifted_all` states.
pub fn shift_entities(es: Vec<TextEntity>, by: i32) -> (r: Vec<TextEntity>)
    ensures
        r@ == shifted_all(es@, by),
{
    let mut out: Vec<TextEntity> = Vec::new();
    let mut i: usize = 0;
    while i < es.len()
        invariant
            i <= es@.len(),
            out@ =~= shifted_all(es@, by).take(i as int),
        decreases es@.len() - i,
    {
        let e = es[i].duplicate();
        out.push(TextEntity { offset: e.offset.wrapping_add(by), ..e });
        i = i + 1;
    }
    out
}

/// The entities that end within `avail`, as `ending_within` states.
fn keep_ending_within(es: Vec<TextEntity>, avail: usize) -> (r: Vec<TextEntity>)
    ensures
        r@ == ending_within(es@, avail as int),
{
    let mut out: Vec<TextEntity> = Vec::new();
    let mut i: usize = 0;
    while i < es.len()
        invariant
            i <= es@.len(),
            out@ == ending_within(es@.take(i as int), avail as int),
        decreases es@.len() - i,
    {
        let e = es[i].duplicate();
        assert(es@.take(i + 1).drop_last() =~= es@.take(i as int));
        let end = e.offset.wrapping_add(e.length);
        if (#[verifier::truncate] (end as usize)) <= avail {
            out.push(e);
        }
        i = i + 1;
    }
    assert(es@.take(i as int) =~= es@);
    out
}

/// The views of optional hashes.
pub open spec fn opt_hashes(h: Option<Vec<(u64, u64)>>) -> Option<Seq<(u64, u64)>> {
    match h {
        Some(v) => Some(v@),
        None => None,
    }
}

/// Text and entities of a message after the replacement rules.
pub open spec fn replaced(p: Pipeline, m: MessageView) -> (Seq<char>, Seq<TextEntity>) {
    apply_rules(p.replacer.spec_rules(), m.text@, m.entities@)
}

impl Pipeline {
    /// The forwarded result for a staged candidate.
    fn finish(
        &self,
        text: String,
        entities: Vec<TextEntity>,
        media_list: Vec<MediaView>,
        apply_append: bool,
        info: DedupCommitInfo,
    ) -> (r: PipelineResult)
        ensures
            is_forward(*self, r, text@, entities@, media_views(media_list@), apply_append, info@),
    {
        let (t, e) = if apply_append {
            self.append_content(text.as_str(), entities, media_list.len() > 0)
        } else {
            (text, entities)
        };
        PipelineResult {
            should_forward: true,
            text: t,
            entities: e,
            media_list,
            dedup_info: Some(info),
        }
    }

    /// The deduplication step, as `dedup_outcome` states.
    fn decide(
        &mut self,
        text: String,
        entities: Vec<TextEntity>,
        media_list: Vec<MediaView>,
        apply_append: bool,
        hashes: Option<Vec<(u64, u64)>>,
    ) -> (r: ProcessStep)
        requires
            old(self).wf(),
        ensures
            final(self).wf(),
            dedup_outcome(
                *old(self),
                *final(self),
                text@,
                entities@,
                media_views(media_list@),
                apply_append,
                opt_hashes(hashes),
                r,
            ),
    {
        let decision = self.deduplicator.check_text_and_meta(text.as_str(), media_list.as_slice());
        match decision {
            DedupDecision::Duplicate => ProcessStep::Done(refusal()),
            DedupDecision::Unique(c) => {
                let info = self.deduplicator.stage_candidate(c, Vec::new());
                assert(media_views(media_list@).len() == 0);
                ProcessStep::Done(self.finish(text, entities, media_list, apply_append, info))
            },
            DedupDecision::NeedThumb(c) => {
                match hashes {
                    Some(h) => {
                        let info = self.deduplicator.stage_candidate(c, h);
                        ProcessStep::Done(self.finish(text, entities, media_list, apply_append, info))
                    },
                    None => {
                        if self.has_thumb_hasher {
                            ProcessStep::HashThumbs(
                                PendingProcess {
                                    text,
                                    entities,
                                    media_list,
                                    apply_append,
                                    candidate: Some(c),
                                },
                            )
                        } else {
                            let hs: Vec<(u64, u64)> = Vec::new();
                            if self.deduplicator.check_thumb(hs.as_slice()) {
                                return ProcessStep::Done(refusal());
                            }
                            let info = self.deduplicator.stage_candidate(c, hs);
                            assert(info@.thumb_hashes =~= Seq::<(u64, u64)>::empty());
                            ProcessStep::Done(
                                self.finish(text, entities, media_list, apply_append, info),
                            )
                        }
                    },
                }
            },
        }
    }

    /// First step of processing a message: replacement rules, keyword filter, media
    /// filter; then either a request for thumbnail hashes (a single media with a
    /// non-blank text, when a hasher exists) or the deduplication step.
    pub fn process_begin(&mut self, message: &MessageView, apply_append: bool) -> (r: ProcessStep)
        requires
            old(self).wf(),
        ensures
            final(self).wf(),
            ({
                let (t, es) = replaced(*old(self), *message);
                let media = match message@.media {
                    Some(m) => seq![m],
                    None => Seq::<MediaSpec>::empty(),
                };
                if !verdict(old(self).filter@, t).0 {
                    r matches ProcessStep::Done(res) && is_refusal(res) && *final(self)
                        == *old(self)
                } else if message@.media matches Some(m) && skips(old(self).media_filter@, m) {
                    r matches ProcessStep::Done(res) && is_refusal(res) && *final(self)
                        == *old(self)
                } else if media.len() == 1 && !is_blank(t) && old(self).has_thumb_hasher {
                    &&& r matches ProcessStep::HashThumbs(pp)
                    &&& pp.text@ == t
                    &&& pp.entities@ == es
                    &&& media_views(pp.media_list@) == media
                    &&& pp.apply_append == apply_append
                    &&& pp.candidate is None
                    &&& *final(self) == *old(self)
                } else {
                    dedup_outcome(*old(self), *final(self), t, es, media, apply_append, None, r)
                }
            }),
    {
        let (text, entities) = self.replacer.process_with_entities(
            message.text.as_str(),
            crate::model::copy_entities(message.entities.as_slice()),
        );
        let (ok, _) = self.filter.should_forward(text.as_str());
        if !ok {
            return ProcessStep::Done(refusal());
        }
        let mut media_list: Vec<MediaView> = Vec::new();
        match &message.media {
            Some(m) => {
                if self.media_filter.should_skip(m) {
                    return ProcessStep::Done(refusal());
                }
                media_list.push(m.duplicate());
            },
            None => {},
        }
        assert(media_views(media_list@) =~= match message@.media {
            Some(m) => seq![m],
            None => Seq::<MediaSpec>::empty(),
        });
        if media_list.len() == 1 && !str_is_blank(text.as_str()) && self.has_thumb_hasher {
            return ProcessStep::HashThumbs(
                PendingProcess { text, entities, media_list, apply_append, candidate: None },
            );
        }
        self.decide(text, entities, media_list, apply_append, None)
    }

    /// Next step once the thumbnails of `pending` are hashed: a duplicate thumbnail is
    /// refused; otherwise, before the deduplication check, the hashes (when any) go with
    /// it, and after it the candidate is staged with them.
    pub fn process_resume(&mut self, pending: PendingProcess, hashes: Vec<(u64, u64)>) -> (r: ProcessStep)
        requires
            old(self).wf(),
        ensures
            final(self).wf(),
            ({
                let d = old(self).deduplicator@;
                let text = pending.text@;
                let es = pending.entities@;
                let media = media_views(pending.media_list@);
                match pending.candidate {
                    None => if hashes@.len() > 0 && thumbs_duplicate(d, hashes@) {
                        r matches ProcessStep::Done(res) && is_refusal(res) && *final(self)
                            == *old(self)
                    } else {
                        dedup_outcome(
                            *old(self),
                            *final(self),
                            text,
                            es,
                            media,
                            pending.apply_append,
                            if hashes@.len() > 0 {
                                Some(hashes@)
                            } else {
                                None
                            },
                            r,
                        )
                    },
                    Some(c) => if thumbs_duplicate(d, hashes@) {
                        r matches ProcessStep::Done(res) && is_refusal(res) && *final(self)
                            == *old(self)
                    } else {
                        let info = CommitSpec { candidate: c@, thumb_hashes: hashes@ };
                        &&& r matches ProcessStep::Done(res) && is_forward(
                            *old(self),
                            res,
                            text,
                            es,
                            media,
                            pending.apply_append,
                            info,
                        )
                        &&& final(self).deduplicator@ == staged_with(d, info)
                        &&& same_but_dedup(*old(self), *final(self))
                    },
                }
            }),
    {
        let PendingProcess { text, entities, media_list, apply_append, candidate } = pending;
        match candidate {
            None => {
                if hashes.len() > 0 {
                    if self.deduplicator.check_thumb(hashes.as_slice()) {
                        return ProcessStep::Done(refusal());
                    }
                    self.decide(text, entities, media_list, apply_append, Some(hashes))
                } else {
                    self.decide(text, entities, media_list, apply_append, None)
                }
            },
            Some(c) => {
                if self.deduplicator.check_thumb(hashes.as_slice()) {
                    return ProcessStep::Done(refusal());
                }
                let info = self.deduplicator.stage_candidate(c, hashes);
                ProcessStep::Done(self.finish(text, entities, media_list, apply_append, info))
            },
        }
    }
}

/// Combined text and entities of the first `k` messages of an album: non-empty texts
/// joined by a blank line, each one's entities moved to where its text starts.
pub open spec fn album_text(p: Pipeline, msgs: Seq<MessageView>, k: nat) -> (Seq<char>, Seq<TextEntity>)
    decreases k,
{
    if k == 0 || k > msgs.len() {
        (Seq::empty(), Seq::empty())
    } else {
        let prev = album_text(p, msgs, (k - 1) as nat);
        let (t, es) = replaced(p, msgs[k - 1]);
        let cur = utf16_units(prev.0) as i32;
        if t.len() == 0 {
            prev
        } else if prev.0.len() > 0 {
            (prev.0 + "\n\n"@ + t, prev.1 + shifted_all(es, cur.wrapping_add(2)))
        } else {
            (t, prev.1 + shifted_all(es, cur))
        }
    }
}

/// The media of the first `k` messages of an album.
pub open spec fn album_media(msgs: Seq<MessageView>, k: nat) -> Seq<MediaSpec>
    decreases k,
{
    if k == 0 || k > msgs.len() {
        Seq::empty()
    } else {
        let prev = album_media(msgs, (k - 1) as nat);
        match msgs[k - 1]@.media {
            Some(m) => prev.push(m),
            None => prev,
        }
    }
}

/// Whether a message carries media that is not forwarded.
pub open spec fn media_refused(p: Pipeline, m: crate::model::MessageSpec) -> bool {
    match m.media {
        Some(x) => skips(p.media_filter@, x),
        None => false,
    }
}

/// Whether some message of an album carries media that is not forwarded.
pub open spec fn album_skipped(p: Pipeline, msgs: Seq<MessageView>) -> bool {
    exists|i: int| 0 <= i < msgs.len() && media_refused(p, #[trigger] msgs[i]@)
}

/// A message with its text and entities taken out.
pub open spec fn emptied(m: crate::model::MessageSpec) -> crate::model::MessageSpec {
    crate::model::MessageSpec { text: Seq::empty(), entities: Seq::empty(), ..m }
}

/// The messages of a forwarded album: all emptied, the first one carrying the combined
/// (appended) text and entities; and the staged candidate.
pub open spec fn is_album_forward(
    p: Pipeline,
    r: Option<(Vec<MessageView>, Option<DedupCommitInfo>)>,
    msgs: Seq<MessageView>,
    info: CommitSpec,
) -> bool {
    let (t, es) = album_text(p, msgs, msgs.len());
    let media = album_media(msgs, msgs.len());
    let (at, ae) = pipeline_appended(p, t, es, media.len() > 0);
    &&& r matches Some((out, di))
    &&& out@.len() == msgs.len()
    &&& forall|i: int|
        1 <= i < msgs.len() ==> (#[trigger] out@[i])@ == emptied(msgs[i]@)
    &&& out@[0]@ == (crate::model::MessageSpec { text: at, entities: ae, ..emptied(msgs[0]@) })
    &&& di matches Some(d) && d@ == info
}

/// An album between pipeline steps, waiting for the thumbnail hashes of its media.
pub struct PendingAlbum {
    pub messages: Vec<MessageView>,
    pub text: String,
    pub entities: Vec<TextEntity>,
    pub media_list: Vec<MediaView>,
    pub candidate: DedupCandidate,
}

/// What an album step gives back: a result (`None` when nothing is forwarded), or an
/// album whose thumbnails the caller hashes before it calls `album_resume`.
pub enum AlbumStep {
    Done(Option<(Vec<MessageView>, Option<DedupCommitInfo>)>),
    HashThumbs(PendingAlbum),
}

impl Pipeline {
    /// The emptied messages, the first with the appended text.
    fn finish_album(
        &self,
        messages: Vec<MessageView>,
        text: String,
        entities: Vec<TextEntity>,
        has_media: bool,
        info: DedupCommitInfo,
    ) -> (r: Option<(Vec<MessageView>, Option<DedupCommitInfo>)>)
        requires
            messages@.len() > 0,
        ensures
            ({
                let (at, ae) = pipeline_appended(*self, text@, entities@, has_media);
                &&& r matches Some((out, di))
                &&& out@.len() == messages@.len()
                &&& forall|i: int|
                    1 <= i < messages@.len() ==> (#[trigger] out@[i])@ == messages@[i]@
                &&& out@[0]@ == (crate::model::MessageSpec {
                    text: at,
                    entities: ae,
                    ..messages@[0]@
                })
                &&& di matches Some(d) && d@ == info@
            }),
    {
        let (t, e) = self.append_content(text.as_str(), entities, has_media);
        let mut out: Vec<MessageView> = Vec::new();
        let mut i: usize = 0;
        while i < messages.len()
            invariant
                i <= messages@.len(),
                out@.len() == i,
                forall|j: int| 1 <= j < i ==> (#[trigger] out@[j])@ == messages@[j]@,
                i > 0 ==> out@[0]@ == (crate::model::MessageSpec {
                    text: t@,
                    entities: e@,
                    ..messages@[0]@
                }),
            decreases messages@.len() - i,
        {
            let m = messages[i].duplicate();
            if i == 0 {
                out.push(
                    MessageView {
                        text: t.clone(),
                        entities: crate::model::copy_entities(e.as_slice()),
                        ..m
                    },
                );
            } else {
                out.push(m);
            }
            i = i + 1;
        }
        Some((out, Some(info)))
    }

    /// First step of processing an album: replacement rules per message, texts joined,
    /// media filter, keyword filter on the joined text, deduplication; `None` when the
    /// album is not forwarded, or a request for thumbnail hashes when they are needed and
    /// a hasher exists.
    pub fn album_begin(&mut self, messages: &[MessageView]) -> (r: AlbumStep)
        requires
            old(self).wf(),
        ensures
            final(self).wf(),
            ({
                let msgs = messages@;
                let (t, es) = album_text(*old(self), msgs, msgs.len());
                let media = album_media(msgs, msgs.len());
                let d = old(self).deduplicator@;
                let c = candidate_for(t, media);
                if msgs.len() == 0 || album_skipped(*old(self), msgs) || !verdict(
                    old(self).filter@,
                    t,
                ).0 || is_duplicate(d, t, media) {
                    r matches AlbumStep::Done(None) && *final(self) == *old(self)
                } else if media.len() > 0 && old(self).has_thumb_hasher {
                    &&& r matches AlbumStep::HashThumbs(pa)
                    &&& pa.text@ == t
                    &&& pa.entities@ == es
                    &&& media_views(pa.media_list@) == media
                    &&& pa.candidate@ == c
                    &&& pa.messages@.len() == msgs.len()
                    &&& forall|i: int|
                        0 <= i < msgs.len() ==> (#[trigger] pa.messages@[i])@ == emptied(msgs[i]@)
                    &&& *final(self) == *old(self)
                } else {
                    let info = CommitSpec { candidate: c, thumb_hashes: Seq::empty() };
                    &&& r matches AlbumStep::Done(res) && is_album_forward(*old(self), res, msgs, info)
                    &&& final(self).deduplicator@ == staged_with(d, info)
                    &&& same_but_dedup(*old(self), *final(self))
                }
            }),
    {
        if messages.len() == 0 {
            return AlbumStep::Done(None);
        }
        let mut processed: Vec<MessageView> = Vec::new();
        let mut combined: Vec<char> = Vec::new();
        let mut combined_entities: Vec<TextEntity> = Vec::new();
        let mut media_list: Vec<MediaView> = Vec::new();
        let mut i: usize = 0;
        while i < messages.len()
            invariant
                self.wf(),
                i <= messages@.len(),
                (combined@, combined_entities@) == album_text(*self, messages@, i as nat),
                media_views(media_list@) == album_media(messages@, i as nat),
                processed@.len() == i,
                forall|j: int| 0 <= j < i ==> (#[trigger] processed@[j])@ == emptied(messages@[j]@),
                forall|j: int| 0 <= j < i ==> !media_refused(*self, #[trigger] messages@[j]@),
            decreases messages@.len() - i,
        {
            let m = &messages[i];
            let (text, entities) = self.replacer.process_with_entities(
                m.text.as_str(),
                crate::model::copy_entities(m.entities.as_slice()),
            );
            let ghost mv = media_views(media_list@);
            match &m.media {
                Some(media) => {
                    if self.media_filter.should_skip(media) {
                        assert(media_refused(*self, messages@[i as int]@));
                        return AlbumStep::Done(None);
                    }
                    media_list.push(media.duplicate());
                    assert(media_views(media_list@) =~= mv.push(media@));
                },
                None => {},
            }
            let cstr = string_from_chars(combined.as_slice());
            let cc = str_chars(cstr.as_str());
            let cur16 = crate::utf16::chars_utf16_len(cc.as_slice());
            let cur = #[verifier::truncate] (cur16 as i32);
            let tcs = str_chars(text.as_str());
            let ghost prev = (combined@, combined_entities@);
            proof {
                assert(messages@.take(i + 1).len() == i + 1);
            }
            if tcs.len() > 0 {
                if combined.len() > 0 {
                    combined.push('\n');
                    combined.push('\n');
                    push_all(&mut combined, &tcs);
                    assert(combined@ =~= prev.0 + "\n\n"@ + text@) by {
                        reveal_strlit("\n\n");
                    }
                    let moved = shift_entities(entities, cur.wrapping_add(2));
                    append_entities(&mut combined_entities, moved);
                } else {
                    push_all(&mut combined, &tcs);
                    let moved = shift_entities(entities, cur);
                    append_entities(&mut combined_entities, moved);
                }
            }
            let ghost pv = processed@;
            let mm = m.duplicate();
            processed.push(MessageView { text: String::new(), entities: Vec::new(), ..mm });
            assert(processed@[i as int]@ == emptied(messages@[i as int]@)) by {
                assert(processed@[i as int]@.text =~= Seq::<char>::empty());
                assert(processed@[i as int]@.entities =~= Seq::<TextEntity>::empty());
            }
            i = i + 1;
        }
        let ctext = string_from_chars(combined.as_slice());
        let (ok, _) = self.filter.should_forward(ctext.as_str());
        if !ok {
            return AlbumStep::Done(None);
        }
        assert(!album_skipped(*self, messages@));
        let decision = self.deduplicator.check_text_and_meta(ctext.as_str(), media_list.as_slice());
        let has_media = media_list.len() > 0;
        match decision {
            DedupDecision::Duplicate => AlbumStep::Done(None),
            DedupDecision::Unique(c) => {
                let info = self.deduplicator.stage_candidate(c, Vec::new());
                assert(info@.thumb_hashes =~= Seq::<(u64, u64)>::empty());
                AlbumStep::Done(self.finish_album(processed, ctext, combined_entities, has_media, info))
            },
            DedupDecision::NeedThumb(c) => {
                if self.has_thumb_hasher {
                    AlbumStep::HashThumbs(
                        PendingAlbum {
                            messages: processed,
                            text: ctext,
                            entities: combined_entities,
                            media_list,
                            candidate: c,
                        },
                    )
                } else {
                    let hs: Vec<(u64, u64)> = Vec::new();
                    if self.deduplicator.check_thumb(hs.as_slice()) {
                        return AlbumStep::Done(None);
                    }
                    let info = self.deduplicator.stage_candidate(c, hs);
                    assert(info@.thumb_hashes =~= Seq::<(u64, u64)>::empty());
                    AlbumStep::Done(
                        self.finish_album(processed, ctext, combined_entities, has_media, info),
                    )
                }
            },
        }
    }

    /// Next album step once its thumbnails are hashed: a duplicate thumbnail gives
    /// `None`; otherwise the candidate is staged with the hashes and the album forwarded.
    pub fn album_resume(&mut self, pending: PendingAlbum, hashes: Vec<(u64, u64)>) -> (r: Option<
        (Vec<MessageView>, Option<DedupCommitInfo>),
    >)
        requires
            old(self).wf(),
            pending.messages@.len() > 0,
        ensures
            final(self).wf(),
            ({
                let d = old(self).deduplicator@;
                if thumbs_duplicate(d, hashes@) {
                    r is None && *final(self) == *old(self)
                } else {
                    let info = CommitSpec { candidate: pending.candidate@, thumb_hashes: hashes@ };
                    let (at, ae) = pipeline_appended(
                        *old(self),
                        pending.text@,
                        pending.entities@,
                        pending.media_list@.len() > 0,
                    );
                    &&& r matches Some((out, di))
                    &&& out@.len() == pending.messages@.len()
                    &&& forall|i: int|
                        1 <= i < out@.len() ==> (#[trigger] out@[i])@ == pending.messages@[i]@
                    &&& out@[0]@ == (crate::model::MessageSpec {
                        text: at,
                        entities: ae,
                        ..pending.messages@[0]@
                    })
                    &&& di matches Some(x) && x@ == info
                    &&& final(self).deduplicator@ == staged_with(d, info)
                    &&& same_but_dedup(*old(self), *final(self))
                }
            }),
    {
        if self.deduplicator.check_thumb(hashes.as_slice()) {
            return None;
        }
        let PendingAlbum { messages, text, entities, media_list, candidate } = pending;
        let has_media = media_list.len() > 0;
        let info = self.deduplicator.stage_candidate(candidate, hashes);
        self.finish_album(messages, text, entities, has_media, info)
    }
}

/// Appends `more` to `v`.
fn append_entities(v: &mut Vec<TextEntity>, more: Vec<TextEntity>)
    ensures
        final(v)@ == old(v)@ + more@,
{
    let mut i: usize = 0;
    while i < more.len()
        invariant
            i <= more@.len(),
            v@ =~= old(v)@ + more@.take(i as int),
        decreases more@.len() - i,
    {
        v.push(more[i].duplicate());
        i = i + 1;
    }
    assert(more@.take(i as int) =~= more@);
}

} // verus!
