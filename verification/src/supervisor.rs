//! Supervision of the exchange feeds: task states and the reconnection
//! backoff.

use vstd::prelude::*;

verus! {

/// The state of a supervised task.
#[derive(Debug)]
pub enum TaskStatus {
    Starting,
    Running,
    Crashed(String),
    Restarting,
}

/// Longest wait between two reconnection attempts, in seconds.
pub const MAX_BACKOFF_SECS: u64 = 60u64;

/// The wait after `secs`: doubled, at most 60 seconds.
pub open spec fn next_backoff(secs: u64) -> u64 {
    if 2 * secs < 60 {
        (2 * secs) as u64
    } else {
        60
    }
}

/// How long a feed waits before reconnecting: 1 second after a successful
/// connection, doubled after each retry, at most 60 seconds.
#[derive(Clone, Copy, Debug)]
pub struct Backoff {
    secs: u64,
}

impl Backoff {
    #[verifier::type_invariant]
    spec fn inv(self) -> bool {
        1 <= self.secs <= MAX_BACKOFF_SECS
    }

    pub closed spec fn secs(self) -> u64 {
        self.secs
    }

    /// One second.
    pub fn new() -> (r: Backoff)
        ensures
            r.secs() == 1,
    {
        Backoff { secs: 1 }
    }

    /// The current wait, in seconds.
    pub fn current_secs(&self) -> (r: u64)
        ensures
            r == self.secs(),
            1 <= r <= MAX_BACKOFF_SECS,
    {
        proof {
            use_type_invariant(self);
        }
        self.secs
    }

    /// After a successful connection the wait starts again at one second.
    pub fn reset(&mut self)
        ensures
            final(self).secs() == 1,
    {
        self.secs = 1;
    }

    /// After a wait the next one is doubled, up to 60 seconds.
    pub fn advance(&mut self)
        ensures
            final(self).secs() == next_backoff(old(self).secs()),
    {
        proof {
            use_type_invariant(&*self);
        }
        let doubled = self.secs * 2;
        self.secs = if doubled < MAX_BACKOFF_SECS { doubled } else { MAX_BACKOFF_SECS };
    }
}

/// Where a supervised feed stands.
#[derive(Clone, Copy, Debug, PartialEq, Eq, Structural)]
pub enum FeedPhase {
    Connecting,
    Listening,
    Waiting,
    Stopped,
}

/// What the outside world reports to a supervised feed.
#[derive(Clone, Copy, Debug, PartialEq, Eq, Structural)]
pub enum FeedEvent {
    /// The connection (or subscription) succeeded.
    Connected,
    /// The connection (or subscription) could not be made.
    ConnectFailed,
    /// The stream ended, closed or failed.
    Disconnected,
    /// The wait before the next attempt is over.
    WaitOver,
    /// An event could not be handed on: nobody listens any more.
    DeliveryFailed,
}

/// What a supervised feed asks the outside world to do next.
#[derive(Clone, Copy, Debug, PartialEq, Eq, Structural)]
pub enum FeedAction {
    /// Open the connection.
    Connect,
    /// Read the stream and hand its events on.
    Listen,
    /// Sleep this many seconds.
    Wait(u64),
    /// Give up for good.
    Stop,
}

/// A supervised feed as a value: its phase and the wait in seconds that
/// its next failure will cost.
pub struct FeedView {
    pub phase: FeedPhase,
    pub wait: u64,
}

/// One step of a supervised feed: a successful connection resets the wait
/// to one second and listens; a failed connection or a lost stream waits
/// the current backoff; once the wait is over the backoff doubles (at most
/// 60 seconds) and the feed connects again; a delivery failure stops it,
/// and a stopped feed stays stopped.
pub open spec fn feed_step(s: FeedView, ev: FeedEvent) -> (FeedView, FeedAction) {
    if s.phase == FeedPhase::Stopped {
        (s, FeedAction::Stop)
    } else {
        match ev {
            FeedEvent::Connected => (FeedView { phase: FeedPhase::Listening, wait: 1 }, FeedAction::Listen),
            FeedEvent::ConnectFailed => (FeedView { phase: FeedPhase::Waiting, ..s }, FeedAction::Wait(s.wait)),
            FeedEvent::Disconnected => (FeedView { phase: FeedPhase::Waiting, ..s }, FeedAction::Wait(s.wait)),
            FeedEvent::WaitOver => (
                FeedView { phase: FeedPhase::Connecting, wait: next_backoff(s.wait) },
                FeedAction::Connect,
            ),
            FeedEvent::DeliveryFailed => (FeedView { phase: FeedPhase::Stopped, ..s }, FeedAction::Stop),
        }
    }
}

/// The decisions of a supervised exchange feed: when to connect, listen,
/// wait and for how long, and when to give up.
pub struct FeedLoop {
    phase: FeedPhase,
    backoff: Backoff,
}

impl View for FeedLoop {
    type V = FeedView;

    closed spec fn view(&self) -> FeedView {
        FeedView { phase: self.phase, wait: self.backoff.secs() }
    }
}

impl FeedLoop {
    /// A fresh feed: about to connect, with a one-second backoff.
    pub fn new() -> (r: FeedLoop)
        ensures
            r@ == (FeedView { phase: FeedPhase::Connecting, wait: 1 }),
    {
        FeedLoop { phase: FeedPhase::Connecting, backoff: Backoff::new() }
    }

    /// The current phase.
    pub fn phase(&self) -> (r: FeedPhase)
        ensures
            r == self@.phase,
    {
        self.phase
    }

    /// Takes in what happened and says what to do next, as `feed_step`.
    pub fn step(&mut self, ev: FeedEvent) -> (r: FeedAction)
        ensures
            (final(self)@, r) == feed_step(old(self)@, ev),
            final(self)@.phase == FeedPhase::Stopped ==> r == FeedAction::Stop,
            r matches FeedAction::Wait(secs) ==> 1 <= secs <= MAX_BACKOFF_SECS,
    {
        proof {
            use_type_invariant(&self.backoff);
        }
        match self.phase {
            FeedPhase::Stopped => FeedAction::Stop,
            _ => match ev {
                FeedEvent::Connected => {
                    self.backoff.reset();
                    self.phase = FeedPhase::Listening;
                    FeedAction::Listen
                },
                FeedEvent::ConnectFailed | FeedEvent::Disconnected => {
                    self.phase = FeedPhase::Waiting;
                    FeedAction::Wait(self.backoff.current_secs())
                },
                FeedEvent::WaitOver => {
                    self.backoff.advance();
                    self.phase = FeedPhase::Connecting;
                    FeedAction::Connect
                },
                FeedEvent::DeliveryFailed => {
                    self.phase = FeedPhase::Stopped;
                    FeedAction::Stop
                },
            },
        }
    }
}

/// A stopped feed stays stopped, whatever is reported to it.
pub proof fn lemma_stopped_stays_stopped(s: FeedView, ev: FeedEvent)
    requires
        s.phase == FeedPhase::Stopped,
    ensures
        feed_step(s, ev) == (s, FeedAction::Stop),
{
}

/// A feed that fails `k` times in a row right after connecting (each
/// failure followed by its wait) waits `min(2^k, 60)` seconds before its
/// next attempt; after any success the first wait is one second again.
pub proof fn lemma_failures_double_the_wait(s: FeedView, k: nat)
    requires
        s.phase != FeedPhase::Stopped,
        s.wait == backoff_after(k),
    ensures
        feed_step(s, FeedEvent::ConnectFailed).1 == FeedAction::Wait(backoff_after(k)),
        feed_step(feed_step(s, FeedEvent::ConnectFailed).0, FeedEvent::WaitOver).0.wait == backoff_after(k + 1),
        feed_step(s, FeedEvent::Connected).0.wait == backoff_after(0),
        backoff_after(k) == (if pow2(k) < 60 { pow2(k) } else { 60 }),
{
    lemma_backoff_after(k);
}

/// The wait after `k` retries from a fresh backoff: `min(2^k, 60)`.
pub open spec fn backoff_after(k: nat) -> u64
    decreases k,
{
    if k == 0 {
        1
    } else {
        next_backoff(backoff_after((k - 1) as nat))
    }
}

/// 2^k.
pub open spec fn pow2(k: nat) -> int
    decreases k,
{
    if k == 0 {
        1
    } else {
        2 * pow2((k - 1) as nat)
    }
}

/// After `k` retries from a fresh backoff the wait is `min(2^k, 60)`
/// seconds: 1, 2, 4, 8, 16, 32, then 60 for good.
pub proof fn lemma_backoff_after(k: nat)
    ensures
        backoff_after(k) == (if pow2(k) < 60 { pow2(k) } else { 60 }),
        1 <= backoff_after(k) <= MAX_BACKOFF_SECS,
    decreases k,
{
    if k > 0 {
        lemma_backoff_after((k - 1) as nat);
        lemma_pow2_grows((k - 1) as nat);
    }
}

proof fn lemma_pow2_grows(k: nat)
    ensures
        pow2(k) >= 1,
        pow2(k) >= 60 ==> pow2(k + 1) >= 60,
    decreases k,
{
    if k > 0 {
        lemma_pow2_grows((k - 1) as nat);
    }
}

/// Whatever happens, the wait stays between 1 and 60 seconds.
pub proof fn lemma_backoff_bounded(secs: u64)
    requires
        1 <= secs <= MAX_BACKOFF_SECS,
    ensures
        1 <= next_backoff(secs) <= MAX_BACKOFF_SECS,
        next_backoff(secs) >= secs,
{
}

} // verus!
