//! The pacemaker of a connection manager: a monitor that, while it runs, sends a heartbeat
//! message at a fixed interval, and the signaler that stops it.
//!
//! Spawning the monitor's thread, sleeping and sending are done by the caller; this module
//! holds the pacemaker's state and the monitor's decisions.
use vstd::prelude::*;
use std::sync::Arc;
use std::sync::atomic::{AtomicBool, Ordering};

verus! {

/// Asks a running heartbeat monitor to stop. Clones share one flag.
pub struct ShutdownSignaler {
    running: Arc<AtomicBool>,
}

/// Calls `Arc::clone`, which std documents as making another pointer to the same
/// allocation: the result is a handle to the very flag that `flag` points to.
#[verifier::external_body]
fn share_flag(flag: &Arc<AtomicBool>) -> (shared: Arc<AtomicBool>)
    ensures
        shared == *flag,
{
    Arc::clone(flag)
}

impl Clone for ShutdownSignaler {
    /// Another signaler for the same monitor: both share one flag.
    fn clone(&self) -> (s: ShutdownSignaler)
        ensures
            s == *self,
    {
        ShutdownSignaler { running: share_flag(&self.running) }
    }
}

impl ShutdownSignaler {
    /// A signaler for a monitor that has not been asked to stop.
    pub fn new() -> (s: ShutdownSignaler) {
        ShutdownSignaler { running: Arc::new(AtomicBool::new(true)) }
    }

    /// Asks the monitor to stop; it stops when it next checks.
    pub fn shutdown(&self) {
        self.running.store(false, Ordering::SeqCst)
    }

    /// Whether no stop has been asked for, on this signaler or a clone of it.
    pub fn is_running(&self) -> (running: bool) {
        self.running.load(Ordering::SeqCst)
    }
}

/// What the heartbeat monitor learned from its last piece of outside work.
pub enum HeartbeatEvent {
    /// It read the shared flag: whether it is still to run.
    Checked { running: bool },
    /// It sent a heartbeat message: whether the receiver took it.
    Sent { delivered: bool },
}

/// What the heartbeat monitor does next.
#[derive(Debug, Clone, Copy, PartialEq, Eq, Structural)]
pub enum HeartbeatAction {
    /// Sleep this many seconds, then send a heartbeat message.
    SleepThenSend { seconds: u64 },
    /// Read the shared flag.
    CheckRunning,
    /// Stop the monitor.
    Stop,
}

/// The monitor's decision after `event`, for a pacemaker with heartbeat `interval` (in
/// seconds): while it is to run, wait an interval and send; after a delivered message,
/// check the flag again; stop once the flag says so or a message is not delivered.
pub open spec fn heartbeat_decision(interval: u64, event: HeartbeatEvent) -> HeartbeatAction {
    match event {
        HeartbeatEvent::Checked { running } => if running {
            HeartbeatAction::SleepThenSend { seconds: interval }
        } else {
            HeartbeatAction::Stop
        },
        HeartbeatEvent::Sent { delivered } => if delivered {
            HeartbeatAction::CheckRunning
        } else {
            HeartbeatAction::Stop
        },
    }
}

/// The heartbeat monitor's next step. It starts by checking the shared flag.
pub fn next_heartbeat_action(interval: u64, event: HeartbeatEvent) -> (action: HeartbeatAction)
    ensures
        action == heartbeat_decision(interval, event),
        action is SleepThenSend ==> event == (HeartbeatEvent::Checked { running: true }),
        event == (HeartbeatEvent::Sent { delivered: false }) ==> action == HeartbeatAction::Stop,
        event == (HeartbeatEvent::Checked { running: false }) ==> action == HeartbeatAction::Stop,
{
    match event {
        HeartbeatEvent::Checked { running } => {
            if running {
                HeartbeatAction::SleepThenSend { seconds: interval }
            } else {
                HeartbeatAction::Stop
            }
        },
        HeartbeatEvent::Sent { delivered } => {
            if delivered {
                HeartbeatAction::CheckRunning
            } else {
                HeartbeatAction::Stop
            }
        },
    }
}

/// Whether `next` is the event that the work `action` asks for yields: a send is
/// followed by its delivery report, a check by the flag read; nothing follows a stop.
pub open spec fn event_follows(action: HeartbeatAction, next: HeartbeatEvent) -> bool {
    match action {
        HeartbeatAction::SleepThenSend { .. } => next is Sent,
        HeartbeatAction::CheckRunning => next is Checked,
        HeartbeatAction::Stop => false,
    }
}

/// `events` is what a heartbeat monitor with heartbeat `interval` can learn, in order: it
/// begins by checking the flag, and each later event is what the action decided on the
/// one before asks for.
pub open spec fn is_monitor_run(interval: u64, events: Seq<HeartbeatEvent>) -> bool {
    &&& events.len() > 0 ==> events[0] is Checked
    &&& forall|i: int|
        0 <= i < events.len() - 1 ==> event_follows(
            heartbeat_decision(interval, #[trigger] events[i]),
            events[i + 1],
        )
}

/// Every heartbeat sent in a run is sent right after a sleep of the whole interval, so
/// sends are at least an interval apart.
pub proof fn lemma_send_follows_sleep(interval: u64, events: Seq<HeartbeatEvent>, i: int)
    requires
        is_monitor_run(interval, events),
        0 <= i < events.len(),
        events[i] is Sent,
    ensures
        i > 0,
        heartbeat_decision(interval, events[i - 1]) == (HeartbeatAction::SleepThenSend { seconds: interval }),
{
    assert(i != 0);
    let prev = events[i - 1];
    assert(event_follows(heartbeat_decision(interval, prev), events[(i - 1) + 1]));
}

/// A monitor stops right after a heartbeat that is not delivered: nothing follows in its
/// run.
pub proof fn lemma_stops_after_undelivered_send(interval: u64, events: Seq<HeartbeatEvent>, i: int)
    requires
        is_monitor_run(interval, events),
        0 <= i < events.len(),
        events[i] == (HeartbeatEvent::Sent { delivered: false }),
    ensures
        heartbeat_decision(interval, events[i]) == HeartbeatAction::Stop,
        i == events.len() - 1,
{
    if i < events.len() - 1 {
        assert(event_follows(heartbeat_decision(interval, events[i]), events[i + 1]));
    }
}

/// A monitor stops right after it reads that it is to stop: nothing follows in its run.
pub proof fn lemma_stops_after_shutdown_seen(interval: u64, events: Seq<HeartbeatEvent>, i: int)
    requires
        is_monitor_run(interval, events),
        0 <= i < events.len(),
        events[i] == (HeartbeatEvent::Checked { running: false }),
    ensures
        heartbeat_decision(interval, events[i]) == HeartbeatAction::Stop,
        i == events.len() - 1,
{
    if i < events.len() - 1 {
        assert(event_follows(heartbeat_decision(interval, events[i]), events[i + 1]));
    }
}

/// The run of a monitor whose flag stays up and whose heartbeats are all delivered, for
/// `beats` heartbeats: check, send, check, send, ...
pub open spec fn steady_run(beats: nat) -> Seq<HeartbeatEvent> {
    Seq::new(
        2 * beats,
        |i: int|
            if i % 2 == 0 {
                HeartbeatEvent::Checked { running: true }
            } else {
                HeartbeatEvent::Sent { delivered: true }
            },
    )
}

/// While the flag stays up and heartbeats are delivered, the monitor beats forever: for
/// every number of beats there is a run with that many sends, none of its steps stops, and
/// the run goes on with another check.
pub proof fn lemma_beats_while_running(interval: u64, beats: nat)
    ensures
        is_monitor_run(interval, steady_run(beats)),
        steady_run(beats).len() == 2 * beats,
        forall|i: int|
            0 <= i < 2 * beats ==> heartbeat_decision(interval, #[trigger] steady_run(beats)[i])
                != HeartbeatAction::Stop,
        forall|k: int| 0 <= k < beats ==> #[trigger] steady_run(beats)[2 * k + 1] is Sent,
        is_monitor_run(interval, steady_run(beats).push(HeartbeatEvent::Checked { running: true })),
{
    let run = steady_run(beats);
    assert forall|i: int| 0 <= i < run.len() - 1 implies event_follows(
        heartbeat_decision(interval, #[trigger] run[i]),
        run[i + 1],
    ) by {
        if i % 2 == 0 {
            assert((i + 1) % 2 == 1);
        } else {
            assert((i + 1) % 2 == 0);
        }
    }
    assert forall|k: int| 0 <= k < beats implies #[trigger] run[2 * k + 1] is Sent by {
        assert((2 * k + 1) % 2 == 1);
    }
    let longer = run.push(HeartbeatEvent::Checked { running: true });
    assert forall|i: int| 0 <= i < longer.len() - 1 implies event_follows(
        heartbeat_decision(interval, #[trigger] longer[i]),
        longer[i + 1],
    ) by {
        if i < run.len() - 1 {
            assert(longer[i] == run[i]);
            assert(longer[i + 1] == run[i + 1]);
            assert(event_follows(heartbeat_decision(interval, run[i]), run[i + 1]));
        } else {
            assert(i == 2 * beats - 1);
            assert(i % 2 == 1);
        }
    }
}

/// The abstract state of a [`Pacemaker`].
pub struct PacemakerView<H> {
    /// Seconds between heartbeats.
    pub interval: u64,
    /// Whether its monitor has been started.
    pub started: bool,
    /// The signaler of its monitor, once started.
    pub signaler: Option<ShutdownSignaler>,
    /// The handle of its monitor's thread, once started.
    pub join_handle: Option<H>,
}

/// Starts and stops a heartbeat monitor. `H` is the handle of the monitor's thread, which
/// the caller spawns.
pub struct Pacemaker<H> {
    interval: u64,
    join_handle: Option<H>,
    shutdown_signaler: Option<ShutdownSignaler>,
}

impl<H> View for Pacemaker<H> {
    type V = PacemakerView<H>;

    closed spec fn view(&self) -> PacemakerView<H> {
        PacemakerView {
            interval: self.interval,
            started: self.join_handle is Some,
            signaler: self.shutdown_signaler,
            join_handle: self.join_handle,
        }
    }
}

impl<H> Pacemaker<H> {
    /// A started monitor has both a thread and a signaler; one not started has neither.
    #[verifier::type_invariant]
    spec fn well_formed(self) -> bool {
        (self.join_handle is Some) == (self.shutdown_signaler is Some)
    }

    /// A pacemaker that will beat every `interval` seconds, not yet started.
    pub fn new(interval: u64) -> (p: Pacemaker<H>)
        ensures
            p@.interval == interval,
            !p@.started,
            p@.signaler is None,
            p@.join_handle is None,
    {
        Pacemaker { interval, join_handle: None, shutdown_signaler: None }
    }

    /// Seconds between heartbeats.
    pub fn interval(&self) -> (interval: u64)
        ensures
            interval == self@.interval,
    {
        self.interval
    }

    /// Whether the monitor has been started; starting it again does nothing.
    pub fn is_started(&self) -> (started: bool)
        ensures
            started == self@.started,
    {
        self.join_handle.is_some()
    }

    /// Records a monitor that was just started: the handle of its thread and the signaler
    /// that stops it.
    pub fn record_start(&mut self, join_handle: H, shutdown_signaler: ShutdownSignaler)
        requires
            !old(self)@.started,
        ensures
            final(self)@.started,
            final(self)@.interval == old(self)@.interval,
            final(self)@.signaler == Some(shutdown_signaler),
            final(self)@.join_handle == Some(join_handle),
    {
        *self = Pacemaker {
            interval: self.interval,
            join_handle: Some(join_handle),
            shutdown_signaler: Some(shutdown_signaler),
        };
    }

    /// A signaler that stops the monitor, once it has been started.
    pub fn shutdown_signaler(&self) -> (s: Option<ShutdownSignaler>)
        ensures
            s == self@.signaler,
            s is Some == self@.started,
    {
        proof {
            use_type_invariant(self);
        }
        match &self.shutdown_signaler {
            Some(signaler) => Some(signaler.clone()),
            None => None,
        }
    }

    /// Gives up the pacemaker for the handle of the monitor's thread, to wait on it; there
    /// is none where the monitor was never started.
    pub fn into_join_handle(self) -> (h: Option<H>)
        ensures
            h == self@.join_handle,
            h is Some == self@.started,
    {
        self.join_handle
    }
}

} // verus!
