//! The background receiver's supervision: a long-lived `tailscale file get
//! --loop` child drains the inbox into staging, and each tick of the poller
//! decides whether to restart it, whether to give up on it and drain per tick
//! instead, and which way to look for new files. Also the notices shown when
//! files arrive.
//!
//! Why a child at all: running `tailscale file get` on every tick costs a
//! process spawn each time for an inbox that is almost always empty; one
//! long-lived child costs one spawn, ever.
use vstd::prelude::*;
use crate::format::{human_size, spec_human_size};
use crate::models::{ConflictPolicy, PendingIncoming, TransferRecord};
use crate::text::push_str;

verus! {

/// Quick deaths in a row after which `--loop` is taken not to work on this
/// machine (it predates the flag, most likely).
pub const MAX_QUICK_DEATHS: u32 = 3;

/// A child that exits sooner than this after its start died quickly.
pub const QUICK_DEATH_MS: u64 = 3_000;

/// What making sure the child is up found.
#[derive(Debug, Clone, Copy, PartialEq, Eq, Structural)]
pub enum ReceiverState {
    AlreadyRunning,
    Started,
    Failed,
}

/// The poller's memory between ticks.
#[derive(Debug, Clone, Copy)]
pub struct Supervisor {
    /// False once `--loop` has been given up on: from then on the inbox is
    /// drained on each tick.
    pub use_receiver: bool,
    pub quick_deaths: u32,
    /// When the child was last started, in milliseconds of the poller's
    /// monotonic clock.
    pub spawned_at_ms: Option<u64>,
    /// The conflict policy the running child was started with.
    pub running_conflict: Option<ConflictPolicy>,
    /// Whether the child is believed to be up and draining.
    pub alive: bool,
}

impl Supervisor {
    /// The supervisor's own invariant: only a used receiver can be alive,
    /// and a used receiver has not yet died quickly too often.
    pub open spec fn wf(self) -> bool {
        &&& self.alive ==> self.use_receiver
        &&& self.use_receiver ==> self.quick_deaths < MAX_QUICK_DEATHS
        &&& self.quick_deaths <= MAX_QUICK_DEATHS
    }

    pub fn new() -> (r: Supervisor)
        ensures
            r.wf(),
            r.use_receiver,
            r.quick_deaths == 0,
            r.spawned_at_ms is None,
            r.running_conflict is None,
            !r.alive,
    {
        Supervisor { use_receiver: true, quick_deaths: 0, spawned_at_ms: None, running_conflict: None, alive: false }
    }

    /// The state after a settings change to `conflict`.
    pub open spec fn spec_reconcile(self, conflict: ConflictPolicy) -> (Supervisor, bool) {
        if self.running_conflict matches Some(c) && c != conflict {
            (Supervisor { running_conflict: None, ..self }, true)
        } else {
            (self, false)
        }
    }

    /// The child was started with a `--conflict` flag, so a settings change
    /// only takes effect if it is restarted with the new one. Returns whether
    /// the running child must be shut down.
    pub fn reconcile(&mut self, conflict: ConflictPolicy) -> (shutdown: bool)
        requires
            old(self).wf(),
        ensures
            (*final(self), shutdown) == old(self).spec_reconcile(conflict),
            final(self).wf(),
    {
        match self.running_conflict {
            Some(c) => {
                if c != conflict {
                    self.running_conflict = None;
                    return true;
                }
                false
            },
            None => false,
        }
    }

    /// Making sure the child is up found it dead quickly: its start failed,
    /// or it had to be started again soon after its previous start.
    pub open spec fn is_quick_death(self, outcome: ReceiverState, now_ms: u64) -> bool {
        ||| outcome == ReceiverState::Failed
        ||| (outcome == ReceiverState::Started && (self.spawned_at_ms matches Some(at) && (now_ms as int)
            - (at as int) < QUICK_DEATH_MS))
    }

    /// The state after making sure the child is up found `outcome`, at time
    /// `now_ms`; and whether the receiver was just given up on.
    pub open spec fn spec_after_ensure(self, outcome: ReceiverState, conflict: ConflictPolicy, now_ms: u64) -> (Supervisor, bool) {
        let s = match outcome {
            ReceiverState::AlreadyRunning => Supervisor { alive: true, ..self },
            ReceiverState::Started => Supervisor {
                quick_deaths: if self.spawned_at_ms matches Some(at) && (now_ms as int) - (at as int)
                    < QUICK_DEATH_MS {
                    (self.quick_deaths + 1) as u32
                } else {
                    0
                },
                spawned_at_ms: Some(now_ms),
                alive: true,
                running_conflict: Some(conflict),
                ..self
            },
            ReceiverState::Failed => Supervisor {
                quick_deaths: (self.quick_deaths + 1) as u32,
                alive: false,
                running_conflict: None,
                ..self
            },
        };
        if s.quick_deaths >= MAX_QUICK_DEATHS {
            (Supervisor { use_receiver: false, alive: false, ..s }, true)
        } else {
            (s, false)
        }
    }

    /// Takes in what making sure the child is up found. A child that is
    /// started again soon after its previous start died quickly: that is how
    /// an unsupported `--loop` shows up, exiting before it can do any work.
    /// After too many quick deaths in a row the receiver is given up on.
    /// Returns whether it was given up on just now.
    pub fn after_ensure(&mut self, outcome: ReceiverState, conflict: ConflictPolicy, now_ms: u64) -> (gave_up: bool)
        requires
            old(self).wf(),
            old(self).use_receiver,
        ensures
            (*final(self), gave_up) == old(self).spec_after_ensure(outcome, conflict, now_ms),
            final(self).wf(),
    {
        match outcome {
            ReceiverState::AlreadyRunning => {
                self.alive = true;
            },
            ReceiverState::Started => {
                let quick = match self.spawned_at_ms {
                    Some(at) => now_ms < at || now_ms - at < QUICK_DEATH_MS,
                    None => false,
                };
                if quick {
                    self.quick_deaths = self.quick_deaths + 1;
                } else {
                    self.quick_deaths = 0;
                }
                self.spawned_at_ms = Some(now_ms);
                self.alive = true;
                self.running_conflict = Some(conflict);
            },
            ReceiverState::Failed => {
                self.quick_deaths = self.quick_deaths + 1;
                self.alive = false;
                self.running_conflict = None;
            },
        }
        if self.quick_deaths >= MAX_QUICK_DEATHS {
            self.use_receiver = false;
            self.alive = false;
            return true;
        }
        false
    }

    /// Whether this tick looks for new files in staging (the child is
    /// draining) rather than draining the inbox itself.
    pub fn poll_staging(&self) -> (r: bool)
        ensures
            r == self.alive,
    {
        self.alive
    }
}

// --- notices -----------------------------------------------------------------

/// The notice for a file that arrived and waits for a decision.
pub fn arrival_notice(item: &PendingIncoming) -> (r: String)
    ensures
        r@ == match item.sender_hostname {
            Some(sender) => sender@ + " sent you "@ + item.file_name@,
            None => "New file received: "@ + item.file_name@,
        },
{
    let mut r = String::new();
    match &item.sender_hostname {
        Some(sender) => {
            push_str(&mut r, sender.as_str());
            push_str(&mut r, " sent you ");
        },
        None => {
            push_str(&mut r, "New file received: ");
        },
    }
    push_str(&mut r, item.file_name.as_str());
    r
}

/// The notice for a file that was accepted on arrival.
pub fn received_notice(record: &TransferRecord) -> (r: String)
    ensures
        r@ == "Received "@ + record.file_name@ + " ("@ + spec_human_size(record.size as nat) + ")"@,
{
    let mut r = String::new();
    push_str(&mut r, "Received ");
    push_str(&mut r, record.file_name.as_str());
    push_str(&mut r, " (");
    let h = human_size(record.size);
    push_str(&mut r, h.as_str());
    push_str(&mut r, ")");
    r
}

} // verus!
