//! The handle through which work reaches the pool's workers: a bounded
//! channel whose sending side the handle owns, its configuration, and the
//! pool's lifecycle.

use async_channel::{Receiver, Sender};
use vstd::prelude::*;

use crate::duration::{
    digits_value, is_ascii_digit, is_digit_char, parse_outcome, parse_time_delta, span_nanos,
    time_delta_limit, DurationError, TimeSpan,
};
use crate::msgs::ActorInputMessage;

verus! {

#[verifier::external_type_specification]
#[verifier::external_body]
#[verifier::reject_recursive_types(T)]
pub struct ExSender<T>(Sender<T>);

#[verifier::external_type_specification]
#[verifier::external_body]
#[verifier::reject_recursive_types(T)]
pub struct ExReceiver<T>(Receiver<T>);

/// The number of periodic producers that feed the pool.
pub const PRODUCERS: usize = 2;

/// The settings of a pool.
#[derive(Debug, Clone, Copy, PartialEq, Eq, Structural)]
pub struct ActorPoolConfig {
    /// How often expired sessions are cleaned.
    pub clean_sessions: TimeSpan,
    /// How often expired links are cleaned.
    pub clean_links: TimeSpan,
    /// The number of workers.
    pub workers: usize,
    /// The number of threads kept for blocking work.
    pub blocking_workers: usize,
    /// The stack size of each thread, in bytes.
    pub stack_size: usize,
    /// How long an idle thread is kept.
    pub keep_alive: TimeSpan,
    /// How many tasks a thread runs before it looks for new work.
    pub event_interval: u32,
    /// The channel's capacity, where it is not derived from the worker count.
    pub capacity: Option<usize>,
}

impl ActorPoolConfig {
    /// The channel capacity these settings ask for: the override, or twice
    /// the number of workers and producers; `None` where that is zero or
    /// does not fit in a `usize`.
    pub open spec fn spec_capacity(&self) -> Option<nat> {
        match self.capacity {
            Some(c) => if c > 0 {
                Some(c as nat)
            } else {
                None
            },
            None => if (self.workers + PRODUCERS) * 2 <= usize::MAX {
                Some(((self.workers + PRODUCERS) * 2) as nat)
            } else {
                None
            },
        }
    }

    /// The channel capacity, as `spec_capacity` gives it.
    pub fn channel_capacity(&self) -> (r: Option<usize>)
        ensures
            r matches Some(c) ==> self.spec_capacity() == Some(c as nat),
            r is None ==> self.spec_capacity() is None,
    {
        match self.capacity {
            Some(c) => if c > 0 {
                Some(c)
            } else {
                None
            },
            None => if self.workers <= (usize::MAX / 2) - PRODUCERS {
                Some((self.workers + PRODUCERS) * 2)
            } else {
                None
            },
        }
    }
}

impl Default for ActorPoolConfig {
    /// Four workers, two blocking threads, 2 MiB stacks, a ten second
    /// keep-alive, sessions cleaned every 15 s and links every 30 min.
    fn default() -> (r: Self)
        ensures
            r.workers == 4,
            r.blocking_workers == 2,
            r.stack_size == 2 * 1024 * 1024,
            r.keep_alive == (TimeSpan { secs: 10, nanos: 0 }),
            r.event_interval == 61,
            r.clean_sessions == (TimeSpan { secs: 15, nanos: 0 }),
            r.clean_links == (TimeSpan { secs: 1800, nanos: 0 }),
            (r.capacity is None),
    {
        ActorPoolConfig {
            clean_sessions: TimeSpan::from_secs(15),
            clean_links: TimeSpan::from_secs(1800),
            workers: 4,
            blocking_workers: 2,
            stack_size: 2 * 1024 * 1024,
            keep_alive: TimeSpan::from_secs(10),
            event_interval: 61,
            capacity: None,
        }
    }
}

/// Why pool settings were refused.
#[derive(Debug, Clone, Copy, PartialEq, Eq, Structural)]
pub enum ConfigError {
    /// The worker count is not a decimal number that fits in a `usize`.
    Workers,
    /// The session cleaning interval is not a duration.
    SessionInterval(DurationError),
    /// The link cleaning interval is not a duration.
    LinkInterval(DurationError),
}

/// The digits of a count: the text after one optional leading `+`.
pub open spec fn count_digits(s: Seq<char>) -> Seq<char> {
    if s.len() > 0 && s[0] == '+' {
        s.drop_first()
    } else {
        s
    }
}

/// The value of a non-empty run of ASCII digits after an optional `+`, or
/// `None`.
pub open spec fn decimal(s: Seq<char>) -> Option<nat> {
    let d = count_digits(s);
    if d.len() > 0 && forall|i: int| 0 <= i < d.len() ==> is_ascii_digit(#[trigger] d[i]) {
        Some(digits_value(d))
    } else {
        None
    }
}

/// A count written in decimal digits, with an optional leading `+`, where
/// it fits in a `usize`.
pub fn parse_count(s: &str) -> (r: Option<usize>)
    ensures
        r is Some <==> (decimal(s@) matches Some(n) && n <= usize::MAX),
        r matches Some(n) ==> decimal(s@) == Some(n as nat),
{
    let len = s.unicode_len();
    let start: usize = if len > 0 && s.get_char(0) == '+' {
        1
    } else {
        0
    };
    let ghost d = count_digits(s@);
    assert(d =~= s@.skip(start as int));
    if len == start {
        return None;
    }
    let mut i: usize = start;
    let mut value: usize = 0;
    let mut overflow = false;
    while i < len
        invariant
            len == s@.len(),
            start <= i <= len,
            d == s@.skip(start as int),
            d == count_digits(s@),
            forall|k: int| 0 <= k < i - start ==> is_ascii_digit(#[trigger] d[k]),
            !overflow ==> value == digits_value(d.take(i - start)),
            overflow ==> digits_value(d.take(i - start)) > usize::MAX,
        decreases len - i,
    {
        let c = s.get_char(i);
        assert(d[i - start] == c);
        if !is_digit_char(c) {
            assert(d.len() == len - start);
            assert(!is_ascii_digit(d[i - start]));
            assert(!(forall|k: int| 0 <= k < d.len() ==> is_ascii_digit(#[trigger] d[k])));
            return None;
        }
        let dv = (c as u32 - 48) as usize;
        assert(d.take(i + 1 - start).drop_last() =~= d.take(i - start));
        assert(d.take(i + 1 - start).last() == c);
        if !overflow {
            if value > (usize::MAX - dv) / 10 {
                overflow = true;
            } else {
                value = value * 10 + dv;
            }
        }
        i = i + 1;
    }
    assert(d.take(i - start) =~= d);
    if overflow {
        None
    } else {
        Some(value)
    }
}

/// The interval a setting gives, in nanoseconds: the default where it is
/// absent, else the parse of its text.
pub open spec fn interval_setting(s: Option<&str>, default: nat) -> Result<nat, DurationError> {
    match s {
        Some(t) => parse_outcome(t@, i64::MAX as nat, time_delta_limit()),
        None => Ok(default),
    }
}

/// The worker count a setting gives, or `None` where it is not a count.
pub open spec fn workers_setting(s: Option<&str>) -> Option<nat> {
    match s {
        Some(t) => match decimal(t@) {
            Some(n) => if n <= usize::MAX {
                Some(n)
            } else {
                None
            },
            None => None,
        },
        None => Some(4),
    }
}

fn interval_from(s: Option<&str>, default_secs: u64) -> (r: Result<TimeSpan, DurationError>)
    ensures
        match interval_setting(s, default_secs as nat * 1000000000) {
            Ok(n) => (r matches Ok(t) && t.wf() && span_nanos(t) == n),
            Err(e) => r == Err::<TimeSpan, DurationError>(e),
        },
{
    match s {
        Some(t) => parse_time_delta(t),
        None => Ok(TimeSpan::from_secs(default_secs)),
    }
}

impl ActorPoolConfig {
    /// The settings given as text, with the defaults for those absent: the
    /// worker count in decimal, the two cleaning intervals as durations.
    /// The first setting that does not parse is named in the error.
    pub fn from_settings(
        workers: Option<&str>,
        clean_sessions: Option<&str>,
        clean_links: Option<&str>,
    ) -> (r: Result<ActorPoolConfig, ConfigError>)
        ensures
            workers_setting(workers) is None ==> r == Err::<ActorPoolConfig, ConfigError>(
                ConfigError::Workers,
            ),
            workers_setting(workers) is Some ==> (interval_setting(clean_sessions, 15000000000)
                matches Err(e) ==> r == Err::<ActorPoolConfig, ConfigError>(
                ConfigError::SessionInterval(e),
            )),
            (workers_setting(workers) is Some && interval_setting(clean_sessions, 15000000000) is Ok)
                ==> (interval_setting(clean_links, 1800000000000) matches Err(e) ==> r == Err::<
                ActorPoolConfig,
                ConfigError,
            >(ConfigError::LinkInterval(e))),
            r matches Ok(c) ==> {
                &&& workers_setting(workers) == Some(c.workers as nat)
                &&& c.clean_sessions.wf() && interval_setting(clean_sessions, 15000000000) == Ok::<
                    nat,
                    DurationError,
                >(span_nanos(c.clean_sessions))
                &&& c.clean_links.wf() && interval_setting(clean_links, 1800000000000) == Ok::<
                    nat,
                    DurationError,
                >(span_nanos(c.clean_links))
                &&& c.blocking_workers == 2 && c.stack_size == 2 * 1024 * 1024
                &&& c.keep_alive == (TimeSpan { secs: 10, nanos: 0 }) && c.event_interval == 61
                &&& c.capacity is None
            },
            (workers_setting(workers) is Some && interval_setting(clean_sessions, 15000000000) is Ok
                && interval_setting(clean_links, 1800000000000) is Ok) ==> r is Ok,
    {
        let mut config = ActorPoolConfig::default();
        match workers {
            Some(w) => match parse_count(w) {
                Some(n) => {
                    config.workers = n;
                },
                None => {
                    return Err(ConfigError::Workers);
                },
            },
            None => {},
        }
        match interval_from(clean_sessions, 15) {
            Ok(t) => {
                config.clean_sessions = t;
            },
            Err(e) => {
                return Err(ConfigError::SessionInterval(e));
            },
        }
        match interval_from(clean_links, 1800) {
            Ok(t) => {
                config.clean_links = t;
            },
            Err(e) => {
                return Err(ConfigError::LinkInterval(e));
            },
        }
        Ok(config)
    }
}

/// A work item that was not accepted; it is handed back.
#[derive(Debug)]
pub struct SendError(pub ActorInputMessage);

/// Why a work item was not taken without waiting; it is handed back.
#[derive(Debug)]
pub enum TrySendError {
    /// The channel is full: a slot has to free first.
    Full(ActorInputMessage),
    /// The pool is closed.
    Closed(ActorInputMessage),
}

/// The bound a channel was made with, as `Sender::capacity` reports it:
/// `Some(cap)` for a bounded channel.
pub uninterp spec fn sender_bound(s: Sender<ActorInputMessage>) -> Option<nat>;

/// The bound a channel was made with, as `Receiver::capacity` reports it.
pub uninterp spec fn receiver_bound(r: Receiver<ActorInputMessage>) -> Option<nat>;

/// Relies on `async_channel::bounded`: a channel that holds at most `cap`
/// items. It panics on zero, which `requires` rules out.
#[verifier::external_body]
fn bounded_channel(cap: usize) -> (r: (Sender<ActorInputMessage>, Receiver<ActorInputMessage>))
    requires
        cap > 0,
    ensures
        sender_bound(r.0) == Some(cap as nat),
        receiver_bound(r.1) == Some(cap as nat),
{
    async_channel::bounded(cap)
}

/// Relies on `Sender::clone`: another handle on the same channel, which
/// has the same bound.
#[verifier::external_body]
fn clone_sender(s: &Sender<ActorInputMessage>) -> (r: Sender<ActorInputMessage>)
    ensures
        sender_bound(r) == sender_bound(*s),
{
    s.clone()
}

/// Relies on `Sender::send_blocking`: on failure the item comes back.
#[verifier::external_body]
fn send_blocking_on(s: &Sender<ActorInputMessage>, msg: ActorInputMessage) -> (r: Result<
    (),
    SendError,
>)
    ensures
        r matches Err(e) ==> e.0 == msg,
{
    s.send_blocking(msg).map_err(|e| SendError(e.0))
}

/// Relies on `Sender::try_send`: on failure the item comes back, marked as
/// refused for a full or for a closed channel.
#[verifier::external_body]
fn try_send_on(s: &Sender<ActorInputMessage>, msg: ActorInputMessage) -> (r: Result<
    (),
    TrySendError,
>)
    ensures
        r matches Err(TrySendError::Full(m)) ==> m == msg,
        r matches Err(TrySendError::Closed(m)) ==> m == msg,
{
    match s.try_send(msg) {
        Ok(()) => Ok(()),
        Err(async_channel::TrySendError::Full(m)) => Err(TrySendError::Full(m)),
        Err(async_channel::TrySendError::Closed(m)) => Err(TrySendError::Closed(m)),
    }
}

/// Relies on `Sender::close`: closes the channel for every handle; what is
/// queued can still be received.
#[verifier::external_body]
fn close_channel(s: &Sender<ActorInputMessage>) -> bool {
    s.close()
}

/// The submitting side of the pool.
pub struct ActorPool {
    in_sender: Option<Sender<ActorInputMessage>>,
}

impl ActorPool {
    /// The pool still takes work.
    pub closed spec fn is_open(&self) -> bool {
        self.in_sender is Some
    }

    /// The bound of the channel the pool submits to, while it is open.
    pub closed spec fn capacity(&self) -> Option<nat> {
        match self.in_sender {
            Some(s) => sender_bound(s),
            None => None,
        }
    }

    /// Opens the channel with the capacity the settings ask for, and returns
    /// the pool with the receiving side for its workers; `None` where the
    /// settings give no capacity.
    pub fn new(config: &ActorPoolConfig) -> (r: Option<(ActorPool, Receiver<ActorInputMessage>)>)
        ensures
            config.spec_capacity() is Some <==> r is Some,
            r matches Some(p) ==> p.0.is_open() && p.0.capacity() == config.spec_capacity()
                && receiver_bound(p.1) == config.spec_capacity(),
    {
        match config.channel_capacity() {
            Some(cap) => {
                let (s, r) = bounded_channel(cap);
                Some((ActorPool { in_sender: Some(s) }, r))
            },
            None => None,
        }
    }

    /// Another handle on the channel, for a producer or an asynchronous
    /// sender; `None` once the pool is closed.
    pub fn sender(&self) -> (r: Option<Sender<ActorInputMessage>>)
        ensures
            r is Some <==> self.is_open(),
            r matches Some(s) ==> sender_bound(s) == self.capacity(),
    {
        match &self.in_sender {
            Some(s) => Some(clone_sender(s)),
            None => None,
        }
    }

    /// Whether the pool has been closed.
    pub fn is_closed(&self) -> (r: bool)
        ensures
            r == !self.is_open(),
    {
        self.in_sender.is_none()
    }

    /// Submits an item, blocking the thread while the channel is full. A
    /// closed pool refuses it and hands it back.
    pub fn send_blocking(&self, msg: ActorInputMessage) -> (r: Result<(), SendError>)
        ensures
            !self.is_open() ==> r == Err::<(), SendError>(SendError(msg)),
            r matches Err(e) ==> e.0 == msg,
    {
        match &self.in_sender {
            Some(s) => send_blocking_on(s, msg),
            None => Err(SendError(msg)),
        }
    }

    /// Submits an item without waiting. A full channel hands it back as
    /// `Full`, a closed pool as `Closed`.
    pub fn try_send(&self, msg: ActorInputMessage) -> (r: Result<(), TrySendError>)
        ensures
            !self.is_open() ==> r == Err::<(), TrySendError>(TrySendError::Closed(msg)),
            r matches Err(TrySendError::Full(m)) ==> m == msg,
            r matches Err(TrySendError::Closed(m)) ==> m == msg,
    {
        match &self.in_sender {
            Some(s) => try_send_on(s, msg),
            None => Err(TrySendError::Closed(msg)),
        }
    }

    /// Closes the pool: the channel refuses new items, while those queued
    /// are still received. Closing twice does nothing more.
    pub fn close(&mut self)
        ensures
            !final(self).is_open(),
    {
        if let Some(s) = self.in_sender.take() {
            close_channel(&s);
        }
    }
}

/// Where a pool is in its life.
#[derive(Debug, Clone, Copy, PartialEq, Eq, Structural)]
pub enum PoolPhase {
    /// Workers and producers run and work is accepted.
    Running,
    /// Work is refused; workers drain what is queued within a grace period.
    Closing,
    /// The scheduler is torn down.
    Closed,
}

/// What happens to a pool.
#[derive(Debug, Clone, Copy, PartialEq, Eq, Structural)]
pub enum PoolEvent {
    /// `close` was called or the handle was dropped.
    CloseRequested,
    /// The grace period ended or the workers finished.
    Drained,
}

/// The phase after an event.
pub open spec fn spec_next_phase(p: PoolPhase, e: PoolEvent) -> PoolPhase {
    match (p, e) {
        (PoolPhase::Running, PoolEvent::CloseRequested) => PoolPhase::Closing,
        (PoolPhase::Closing, PoolEvent::Drained) => PoolPhase::Closed,
        _ => p,
    }
}

/// Whether a pool in this phase takes new work.
pub open spec fn spec_accepts(p: PoolPhase) -> bool {
    p == PoolPhase::Running
}

/// The phase after a run of events.
pub open spec fn phase_after(p: PoolPhase, es: Seq<PoolEvent>) -> PoolPhase
    decreases es.len(),
{
    if es.len() == 0 {
        p
    } else {
        phase_after(spec_next_phase(p, es[0]), es.drop_first())
    }
}

impl PoolPhase {
    /// The phase after `e`: a close request moves a running pool to
    /// closing, and the end of draining moves a closing pool to closed.
    pub fn next(self, e: PoolEvent) -> (r: PoolPhase)
        ensures
            r == spec_next_phase(self, e),
    {
        match (self, e) {
            (PoolPhase::Running, PoolEvent::CloseRequested) => PoolPhase::Closing,
            (PoolPhase::Closing, PoolEvent::Drained) => PoolPhase::Closed,
            _ => self,
        }
    }

    /// Whether work is accepted in this phase.
    pub fn accepts(self) -> (r: bool)
        ensures
            r == spec_accepts(self),
    {
        match self {
            PoolPhase::Running => true,
            _ => false,
        }
    }
}

/// Once a close has been requested, no run of later events brings the pool
/// back to accepting work.
pub proof fn lemma_closed_never_reopens(p: PoolPhase, es: Seq<PoolEvent>)
    ensures
        !spec_accepts(phase_after(spec_next_phase(p, PoolEvent::CloseRequested), es)),
{
    let q = spec_next_phase(p, PoolEvent::CloseRequested);
    lemma_stays_refusing(q, es);
}

proof fn lemma_stays_refusing(q: PoolPhase, es: Seq<PoolEvent>)
    requires
        q != PoolPhase::Running,
    ensures
        !spec_accepts(phase_after(q, es)),
    decreases es.len(),
{
    if es.len() > 0 {
        lemma_stays_refusing(spec_next_phase(q, es[0]), es.drop_first());
    }
}

} // verus!
