//! Decisions around sending a task: what to send for it, how to react to a call that
//! hit Telegram's flood limit, and how many history messages to ask for per page.
use crate::forward::ForwardTask;
use crate::model::{copy_entities, messages_view, MediaSpec, MediaView, MessageSpec, TextEntity};
use vstd::prelude::*;

verus! {

/// Sends tasks to the target chat; the sending itself goes through the client.
pub struct MessageSender;

/// Limits for retrying a call that Telegram answered with FLOOD_WAIT.
#[derive(Debug, Clone, Copy)]
pub struct FloodWaitPolicy {
    pub max_retries: usize,
    pub max_total_wait_secs: u64,
    pub request_timeout_secs: u64,
}

/// How one call ended.
#[derive(Debug, Clone, Copy)]
pub enum CallOutcome {
    Success,
    /// Telegram asked to wait, for the given number of seconds if it said.
    FloodWait(Option<u32>),
    OtherError,
    TimedOut,
}

/// Why retrying stopped.
#[derive(Debug, Clone, Copy, PartialEq, Eq, Structural)]
pub enum FloodFailure {
    TooManyRetries,
    MissingWait,
    WaitBudgetExceeded,
    CallFailed,
    TimedOut,
}

/// What to do after a call.
#[derive(Debug, Clone, Copy, PartialEq, Eq, Structural)]
pub enum FloodStep {
    Done,
    /// Sleep for this many seconds, then call again.
    Retry(u64),
    GiveUp(FloodFailure),
}

/// Retries so far and seconds waited so far.
#[derive(Debug, Clone, Copy)]
pub struct FloodWaitState {
    pub retry_count: usize,
    pub total_wait_secs: u64,
}

impl FloodWaitState {
    /// No retries and no wait yet.
    pub fn new() -> (r: Self)
        ensures
            r.retry_count == 0 && r.total_wait_secs == 0,
    {
        FloodWaitState { retry_count: 0, total_wait_secs: 0 }
    }
}

/// The step after a call that ended with `outcome`, and the state after it. A flood
/// wait counts as a retry; it gives up once the retries pass `max_retries`, when
/// Telegram gave no wait, or when the waits together would pass `max_total_wait_secs`.
pub open spec fn flood_step(
    policy: FloodWaitPolicy,
    st: FloodWaitState,
    outcome: CallOutcome,
) -> (FloodStep, int, int) {
    match outcome {
        CallOutcome::Success => (FloodStep::Done, st.retry_count as int, st.total_wait_secs as int),
        CallOutcome::FloodWait(v) => {
            let retries = st.retry_count + 1;
            if retries > policy.max_retries {
                (FloodStep::GiveUp(FloodFailure::TooManyRetries), retries, st.total_wait_secs as int)
            } else {
                match v {
                    None => (FloodStep::GiveUp(FloodFailure::MissingWait), retries, st.total_wait_secs as int),
                    Some(w) => if st.total_wait_secs + w > policy.max_total_wait_secs {
                        (
                            FloodStep::GiveUp(FloodFailure::WaitBudgetExceeded),
                            retries,
                            st.total_wait_secs as int,
                        )
                    } else {
                        (FloodStep::Retry(w as u64), retries, st.total_wait_secs + w)
                    },
                }
            }
        },
        CallOutcome::OtherError => (
            FloodStep::GiveUp(FloodFailure::CallFailed),
            st.retry_count as int,
            st.total_wait_secs as int,
        ),
        CallOutcome::TimedOut => (
            FloodStep::GiveUp(FloodFailure::TimedOut),
            st.retry_count as int,
            st.total_wait_secs as int,
        ),
    }
}

/// Decides the step after a call that ended with `outcome`, and updates `state`, as
/// `flood_step` states. While it goes on retrying, the retries stay within
/// `max_retries` and the waits within `max_total_wait_secs`.
pub fn next_flood_step(policy: FloodWaitPolicy, state: &mut FloodWaitState, outcome: CallOutcome) -> (r: FloodStep)
    requires
        old(state).retry_count <= policy.max_retries,
    ensures
        ({
            let (step, retries, total) = flood_step(policy, *old(state), outcome);
            &&& r == step
            &&& step is Retry ==> final(state).retry_count == retries
                && final(state).total_wait_secs == total
            &&& !(step is Retry) ==> *final(state) == *old(state)
        }),
        r is Retry ==> final(state).retry_count <= policy.max_retries
            && final(state).total_wait_secs <= policy.max_total_wait_secs,
{
    match outcome {
        CallOutcome::Success => FloodStep::Done,
        CallOutcome::FloodWait(v) => {
            if state.retry_count >= policy.max_retries {
                return FloodStep::GiveUp(FloodFailure::TooManyRetries);
            }
            match v {
                None => FloodStep::GiveUp(FloodFailure::MissingWait),
                Some(w) => {
                    let w64 = w as u64;
                    if state.total_wait_secs > policy.max_total_wait_secs
                        || w64 > policy.max_total_wait_secs - state.total_wait_secs {
                        FloodStep::GiveUp(FloodFailure::WaitBudgetExceeded)
                    } else {
                        state.retry_count = state.retry_count + 1;
                        state.total_wait_secs = state.total_wait_secs + w64;
                        FloodStep::Retry(w64)
                    }
                },
            }
        },
        CallOutcome::OtherError => FloodStep::GiveUp(FloodFailure::CallFailed),
        CallOutcome::TimedOut => FloodStep::GiveUp(FloodFailure::TimedOut),
    }
}

/// However the calls end, retrying stops: each retry raises the retry count, which
/// cannot pass `max_retries`.
pub proof fn law_retries_bounded(policy: FloodWaitPolicy, st: FloodWaitState, outcome: CallOutcome)
    requires
        st.retry_count <= policy.max_retries,
        st.total_wait_secs <= policy.max_total_wait_secs,
    ensures
        ({
            let (step, retries, total) = flood_step(policy, st, outcome);
            step is Retry ==> retries == st.retry_count + 1 && retries <= policy.max_retries
                && total <= policy.max_total_wait_secs
        }),
        st.retry_count == policy.max_retries ==> !(flood_step(policy, st, outcome).0 is Retry),
{
}

/// What to send for a task.
pub enum SendPlan {
    Nothing,
    Text { text: String, entities: Vec<TextEntity> },
    Media { media: MediaView, caption: String, entities: Vec<TextEntity> },
    Album { medias: Vec<MediaView>, caption: String, entities: Vec<TextEntity> },
}

/// A plan as a mathematical value.
pub enum PlanSpec {
    Nothing,
    Text(Seq<char>, Seq<TextEntity>),
    Media(MediaSpec, Seq<char>, Seq<TextEntity>),
    Album(Seq<MediaSpec>, Seq<char>, Seq<TextEntity>),
}

/// The view of a plan.
pub open spec fn plan_view(p: SendPlan) -> PlanSpec {
    match p {
        SendPlan::Nothing => PlanSpec::Nothing,
        SendPlan::Text { text, entities } => PlanSpec::Text(text@, entities@),
        SendPlan::Media { media, caption, entities } => PlanSpec::Media(media@, caption@, entities@),
        SendPlan::Album { medias, caption, entities } => PlanSpec::Album(
            medias@.map_values(|m: MediaView| m@),
            caption@,
            entities@,
        ),
    }
}

/// The messages of a task that are sent: outside an album task, messages that belong
/// to an album are left out.
pub open spec fn sendable(ms: Seq<MessageSpec>, is_album: bool) -> Seq<MessageSpec> {
    ms.filter(|m: MessageSpec| !(m.album_id is Some && !is_album))
}

/// The media of the messages that have one, in order.
pub open spec fn medias_of(ms: Seq<MessageSpec>) -> Seq<MediaSpec>
    decreases ms.len(),
{
    if ms.len() == 0 {
        Seq::empty()
    } else {
        match ms.last().media {
            Some(m) => medias_of(ms.drop_last()).push(m),
            None => medias_of(ms.drop_last()),
        }
    }
}

/// What is sent for a task: nothing when no message is left; for an album, its media
/// with the first message's text as caption (that text alone when there is no media);
/// otherwise the first message, as media with caption, or as text when it has text.
pub open spec fn send_plan(ms: Seq<MessageSpec>, is_album: bool) -> PlanSpec {
    let s = sendable(ms, is_album);
    if s.len() == 0 {
        PlanSpec::Nothing
    } else if is_album {
        if medias_of(s).len() == 0 {
            PlanSpec::Text(s[0].text, s[0].entities)
        } else {
            PlanSpec::Album(medias_of(s), s[0].text, s[0].entities)
        }
    } else {
        match s[0].media {
            Some(m) => PlanSpec::Media(m, s[0].text, s[0].entities),
            None => if s[0].text.len() > 0 {
                PlanSpec::Text(s[0].text, s[0].entities)
            } else {
                PlanSpec::Nothing
            },
        }
    }
}

impl MessageSender {
    /// What to send for `task`, as `send_plan` states.
    pub fn plan(task: &ForwardTask) -> (r: SendPlan)
        ensures
            plan_view(r) == send_plan(messages_view(task.messages@), task.is_album),
    {
        let ghost ms = messages_view(task.messages@);
        let mut kept: Vec<usize> = Vec::new();
        let mut medias: Vec<MediaView> = Vec::new();
        let mut i: usize = 0;
        while i < task.messages.len()
            invariant
                i <= task.messages@.len(),
                ms == messages_view(task.messages@),
                ms.len() == task.messages@.len(),
                forall|j: int| 0 <= j < ms.len() ==> #[trigger] ms[j] == task.messages@[j]@,
                sendable(ms.take(i as int), task.is_album).len() == kept@.len(),
                forall|q: int|
                    0 <= q < kept@.len() ==> #[trigger] kept@[q] < i && sendable(
                        ms.take(i as int),
                        task.is_album,
                    )[q] == ms[kept@[q] as int],
                medias@.map_values(|m: MediaView| m@) == medias_of(
                    sendable(ms.take(i as int), task.is_album),
                ),
            decreases task.messages@.len() - i,
        {
            let msg = &task.messages[i];
            let ghost prev = sendable(ms.take(i as int), task.is_album);
            proof {
                assert(ms.take(i as int + 1).drop_last() =~= ms.take(i as int));
                reveal(Seq::filter);
            }
            if !(msg.album_id.is_some() && !task.is_album) {
                kept.push(i);
                match &msg.media {
                    Some(m) => {
                        medias.push(m.duplicate());
                    },
                    None => {},
                }
                proof {
                    let cur = sendable(ms.take(i as int + 1), task.is_album);
                    assert(cur =~= prev.push(ms[i as int]));
                    assert(cur.drop_last() =~= prev);
                    assert(medias@.map_values(|m: MediaView| m@) =~= medias_of(cur));
                }
            } else {
                proof {
                    assert(sendable(ms.take(i as int + 1), task.is_album) =~= prev);
                }
            }
            i = i + 1;
        }
        assert(ms.take(task.messages@.len() as int) =~= ms);
        if kept.len() == 0 {
            return SendPlan::Nothing;
        }
        let first = &task.messages[kept[0]];
        if task.is_album {
            if medias.len() == 0 {
                SendPlan::Text {
                    text: first.text.clone(),
                    entities: copy_entities(first.entities.as_slice()),
                }
            } else {
                SendPlan::Album {
                    medias,
                    caption: first.text.clone(),
                    entities: copy_entities(first.entities.as_slice()),
                }
            }
        } else {
            match &first.media {
                Some(m) => SendPlan::Media {
                    media: m.duplicate(),
                    caption: first.text.clone(),
                    entities: copy_entities(first.entities.as_slice()),
                },
                None => if first.text.as_str().unicode_len() > 0 {
                    SendPlan::Text {
                        text: first.text.clone(),
                        entities: copy_entities(first.entities.as_slice()),
                    }
                } else {
                    SendPlan::Nothing
                },
            }
        }
    }
}

/// The most history messages asked for in one page.
pub const HISTORY_PAGE_LIMIT: usize = 100;

/// A page size between 1 and `HISTORY_PAGE_LIMIT`: 0 asks for one message, larger
/// sizes are cut to the limit.
pub fn clamp_history_page_limit(limit: usize) -> (r: usize)
    ensures
        r == if limit == 0 {
            1
        } else if limit > HISTORY_PAGE_LIMIT {
            HISTORY_PAGE_LIMIT
        } else {
            limit
        },
{
    if limit == 0 {
        1
    } else if limit > HISTORY_PAGE_LIMIT {
        HISTORY_PAGE_LIMIT
    } else {
        limit
    }
}

} // verus!
