//! Liveness supervision: the host signals activity by heartbeats, and a
//! periodic timer asks on every tick whether the host has been silent for
//! too long.
//!
//! Time is handed in by the caller as a count of nanoseconds on a clock of
//! its choice; the supervisor only ever compares two such readings.

use crate::registry::Registry;
use vstd::prelude::*;

verus! {

/// Nanoseconds in one time unit of the supervisor (one second).
pub const TIME_UNIT: u64 = 1_000_000_000;

/// The interval at which an armed timer is expected to tick: one time unit.
pub const TICK_INTERVAL: u64 = TIME_UNIT;

/// The silence after which the sources are collected: three time units.
pub const SILENCE_THRESHOLD: u64 = 3 * TIME_UNIT;

/// The state of the liveness supervisor.
#[derive(Clone, Copy, Debug, PartialEq, Eq)]
pub enum Supervisor {
    /// No timer runs yet. A heartbeat that came early is remembered, though
    /// nothing reads it before `start` replaces it.
    NotStarted { early_heartbeat: Option<u64> },
    /// A timer runs and measures silence from `last_heartbeat`.
    Armed { last_heartbeat: u64 },
}

impl Supervisor {
    /// The state after a heartbeat at `now`: the timestamp is refreshed and
    /// the phase stays what it was.
    pub open spec fn beat(self, now: u64) -> Supervisor {
        match self {
            Supervisor::NotStarted { .. } => Supervisor::NotStarted { early_heartbeat: Some(now) },
            Supervisor::Armed { .. } => Supervisor::Armed { last_heartbeat: now },
        }
    }

    /// Whether a tick at `now` finds the host silent: a timer is armed and
    /// strictly more than `SILENCE_THRESHOLD` has passed since the last
    /// heartbeat. A reading that lies before the last heartbeat counts as no
    /// silence at all.
    pub open spec fn silent_at(self, now: u64) -> bool {
        match self {
            Supervisor::NotStarted { .. } => false,
            Supervisor::Armed { last_heartbeat } => now - last_heartbeat > SILENCE_THRESHOLD,
        }
    }

    /// A supervisor before the host has started it.
    pub fn new() -> (supervisor: Supervisor)
        ensures
            supervisor == (Supervisor::NotStarted { early_heartbeat: None }),
    {
        Supervisor::NotStarted { early_heartbeat: None }
    }

    /// Arms the supervisor at `now`. The caller spawns one timer for each
    /// call; a supervisor that was armed already is armed anew.
    pub fn start(&mut self, now: u64)
        ensures
            *final(self) == (Supervisor::Armed { last_heartbeat: now }),
    {
        *self = Supervisor::Armed { last_heartbeat: now };
    }

    /// Records a heartbeat of the host at `now`.
    pub fn heartbeat(&mut self, now: u64)
        ensures
            *final(self) == old(self).beat(now),
    {
        match *self {
            Supervisor::NotStarted { .. } => {
                *self = Supervisor::NotStarted { early_heartbeat: Some(now) };
            },
            Supervisor::Armed { .. } => {
                *self = Supervisor::Armed { last_heartbeat: now };
            },
        }
    }

    /// Decides on a tick at `now` whether the sources are to be collected.
    pub fn tick(&self, now: u64) -> (silent: bool)
        ensures
            silent == self.silent_at(now),
    {
        match *self {
            Supervisor::NotStarted { .. } => false,
            Supervisor::Armed { last_heartbeat } => {
                now > last_heartbeat && now - last_heartbeat > SILENCE_THRESHOLD
            },
        }
    }

    /// The work of one tick of a timer at `now`: where the host has been
    /// silent for too long, every source is removed from `registry` and let
    /// go of, however many there are; otherwise the registry stays as it
    /// is. A silence that lasts is found again, and collected again, on
    /// every tick.
    pub fn sweep<S>(&self, registry: &mut Registry<S>, now: u64) -> (collected: bool)
        ensures
            collected == self.silent_at(now),
            final(registry)@ == if collected {
                Map::<Seq<char>, S>::empty()
            } else {
                old(registry)@
            },
            final(registry).order() == if collected {
                Seq::<Seq<char>>::empty()
            } else {
                old(registry).order()
            },
    {
        let silent = self.tick(now);
        if silent {
            registry.clear_all();
        }
        silent
    }
}

} // verus!
