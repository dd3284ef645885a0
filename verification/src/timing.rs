//! Time arithmetic on millisecond clocks: waits until a deadline, the spacing of sends,
//! and a sliding window that watches how many requests time out.
use std::collections::VecDeque;
use vstd::prelude::*;

verus! {

/// Milliseconds from `now` to `target`; 0 once the target has passed.
pub open spec fn until(target: u64, now: u64) -> u64 {
    if target > now {
        (target - now) as u64
    } else {
        0
    }
}

/// Milliseconds elapsed from `since` to `now`; 0 when `now` is earlier.
pub open spec fn elapsed(since: u64, now: u64) -> u64 {
    until(now, since)
}

/// How long to wait from `now_ms` until `target_ms`; zero when the target is not ahead.
pub fn time_until(target_ms: u64, now_ms: u64) -> (d: u64)
    ensures
        d == until(target_ms, now_ms),
{
    if target_ms > now_ms {
        target_ms - now_ms
    } else {
        0
    }
}

/// Keeps sends at least `delay_ms` apart.
pub struct SendThrottle {
    delay_ms: u64,
    last_send_ms: u64,
}

/// A throttle as a mathematical value.
pub struct ThrottleSpec {
    pub delay_ms: u64,
    pub last_send_ms: u64,
}

impl View for SendThrottle {
    type V = ThrottleSpec;

    closed spec fn view(&self) -> ThrottleSpec {
        ThrottleSpec { delay_ms: self.delay_ms, last_send_ms: self.last_send_ms }
    }
}

/// How long a send at `now` has to wait: nothing when there is no delay, else what is
/// left of the delay since the last send.
pub open spec fn throttle_wait(t: ThrottleSpec, now: u64) -> u64 {
    if t.delay_ms == 0 {
        0
    } else if elapsed(t.last_send_ms, now) < t.delay_ms {
        (t.delay_ms - elapsed(t.last_send_ms, now)) as u64
    } else {
        0
    }
}

impl SendThrottle {
    /// A throttle with the given delay, set up so that the first send need not wait:
    /// its last send lies one delay before `now_ms` (at `now_ms` when the clock is not
    /// that far along).
    pub fn new(delay_ms: u64, now_ms: u64) -> (r: Self)
        ensures
            r@.delay_ms == delay_ms,
            r@.last_send_ms == if now_ms >= delay_ms {
                (now_ms - delay_ms) as u64
            } else {
                now_ms
            },
    {
        let last_send_ms = if now_ms >= delay_ms {
            now_ms - delay_ms
        } else {
            now_ms
        };
        SendThrottle { delay_ms, last_send_ms }
    }

    /// How long the next send has to wait at `now_ms`.
    pub fn wait_time(&self, now_ms: u64) -> (w: u64)
        ensures
            w == throttle_wait(self@, now_ms),
            w <= self@.delay_ms,
    {
        if self.delay_ms == 0 {
            return 0;
        }
        let since = time_until(now_ms, self.last_send_ms);
        if since < self.delay_ms {
            self.delay_ms - since
        } else {
            0
        }
    }

    /// Records a send at `now_ms`.
    pub fn mark_sent(&mut self, now_ms: u64)
        ensures
            final(self)@ == (ThrottleSpec { delay_ms: old(self)@.delay_ms, last_send_ms: now_ms }),
    {
        self.last_send_ms = now_ms;
    }
}

/// After a send at `t`, a send `x` milliseconds later waits for what is left of the
/// delay, so that the two are at least one delay apart.
pub proof fn law_sends_spaced_by_delay(t: ThrottleSpec, x: u64)
    requires
        t.last_send_ms as int + x as int <= u64::MAX,
    ensures
        throttle_wait(t, (t.last_send_ms + x) as u64) == if t.delay_ms == 0 || x >= t.delay_ms {
            0
        } else {
            t.delay_ms - x
        },
        x + throttle_wait(t, (t.last_send_ms + x) as u64) >= t.delay_ms,
{
}

/// A new throttle lets its first send through at once, when the clock has run for at
/// least one delay.
pub proof fn law_first_send_immediate(delay_ms: u64, now_ms: u64)
    requires
        now_ms >= delay_ms,
    ensures
        throttle_wait(ThrottleSpec { delay_ms, last_send_ms: (now_ms - delay_ms) as u64 }, now_ms)
            == 0,
{
}

/// What a pruned window keeps of `s`: the suffix from the first time that lies within
/// `window` of `now`.
pub open spec fn kept(s: Seq<u64>, now: u64, window: u64) -> Seq<u64>
    decreases s.len(),
{
    if s.len() > 0 && elapsed(s[0], now) > window {
        kept(s.drop_first(), now, window)
    } else {
        s
    }
}

/// Counts attempts and timeouts over a sliding window, to tell when most requests time
/// out.
pub struct TimeoutWindow {
    window_ms: u64,
    attempts: VecDeque<u64>,
    timeouts: VecDeque<u64>,
}

/// A timeout window as a mathematical value.
pub struct WindowSpec {
    pub window_ms: u64,
    pub attempts: Seq<u64>,
    pub timeouts: Seq<u64>,
}

impl View for TimeoutWindow {
    type V = WindowSpec;

    closed spec fn view(&self) -> WindowSpec {
        WindowSpec { window_ms: self.window_ms, attempts: self.attempts@, timeouts: self.timeouts@ }
    }
}

/// The window after pruning at `now`.
pub open spec fn pruned(w: WindowSpec, now: u64) -> WindowSpec {
    WindowSpec {
        window_ms: w.window_ms,
        attempts: kept(w.attempts, now, w.window_ms),
        timeouts: kept(w.timeouts, now, w.window_ms),
    }
}

/// Whether more than half of the attempts in `w` timed out.
pub open spec fn mostly_timeouts(w: WindowSpec) -> bool {
    w.attempts.len() > 0 && 2 * w.timeouts.len() > w.attempts.len()
}

impl TimeoutWindow {
    /// An empty window of `window_ms` milliseconds.
    pub fn new(window_ms: u64) -> (r: Self)
        ensures
            r@ == (WindowSpec { window_ms, attempts: Seq::empty(), timeouts: Seq::empty() }),
    {
        TimeoutWindow { window_ms, attempts: VecDeque::new(), timeouts: VecDeque::new() }
    }

    fn prune_queue(q: &mut VecDeque<u64>, now_ms: u64, window_ms: u64)
        ensures
            final(q)@ == kept(old(q)@, now_ms, window_ms),
    {
        loop
            invariant
                kept(q@, now_ms, window_ms) == kept(old(q)@, now_ms, window_ms),
            ensures
                q@ == kept(old(q)@, now_ms, window_ms),
            decreases q@.len(),
        {
            let expired = q.len() > 0 && time_until(now_ms, q[0]) > window_ms;
            if !expired {
                return;
            }
            let ghost before = q@;
            q.pop_front();
            assert(q@ =~= before.drop_first());
        }
    }

    /// Drops the attempts and timeouts that lie more than the window before `now_ms`,
    /// from the front of each queue.
    pub fn prune(&mut self, now_ms: u64)
        ensures
            final(self)@ == pruned(old(self)@, now_ms),
    {
        Self::prune_queue(&mut self.attempts, now_ms, self.window_ms);
        Self::prune_queue(&mut self.timeouts, now_ms, self.window_ms);
    }

    /// Records a request made at `now_ms`, then prunes.
    pub fn record_attempt(&mut self, now_ms: u64)
        ensures
            final(self)@ == pruned(
                WindowSpec { attempts: old(self)@.attempts.push(now_ms), ..old(self)@ },
                now_ms,
            ),
    {
        self.attempts.push_back(now_ms);
        self.prune(now_ms);
    }

    /// Records a request that timed out at `now_ms`, then prunes.
    pub fn record_timeout(&mut self, now_ms: u64)
        ensures
            final(self)@ == pruned(
                WindowSpec { timeouts: old(self)@.timeouts.push(now_ms), ..old(self)@ },
                now_ms,
            ),
    {
        self.timeouts.push_back(now_ms);
        self.prune(now_ms);
    }

    /// Prunes at `now_ms`, then answers whether more than half of the attempts in the
    /// window timed out; if so, gives the numbers of timeouts and of attempts.
    pub fn should_reload(&mut self, now_ms: u64) -> (r: Option<(usize, usize)>)
        ensures
            final(self)@ == pruned(old(self)@, now_ms),
            r is Some <==> mostly_timeouts(final(self)@),
            r matches Some(p) ==> p.0 == final(self)@.timeouts.len()
                && p.1 == final(self)@.attempts.len(),
    {
        self.prune(now_ms);
        let attempts = self.attempts.len();
        if attempts == 0 {
            return None;
        }
        let timeouts = self.timeouts.len();
        if timeouts >= attempts || timeouts > attempts - timeouts {
            Some((timeouts, attempts))
        } else {
            None
        }
    }

    /// Number of attempts in the window.
    pub fn attempts_len(&self) -> (n: usize)
        ensures
            n == self@.attempts.len(),
    {
        self.attempts.len()
    }

    /// Number of timeouts in the window.
    pub fn timeouts_len(&self) -> (n: usize)
        ensures
            n == self@.timeouts.len(),
    {
        self.timeouts.len()
    }
}

} // verus!
