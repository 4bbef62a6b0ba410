//! What the supervisor decides: which workers to start, and what to do when
//! a signal arrives.

use crate::config::{Config, ConfigError};
use vstd::prelude::*;

verus! {

/// The signals that the supervisor waits for.
#[derive(Clone, Copy, Debug, PartialEq, Eq)]
pub enum Signal {
    /// `SIGUSR1`: the access list file has changed.
    User1,
    /// `SIGTERM`: the tracker is to stop.
    Terminate,
}

/// What the supervisor does about a signal.
#[derive(Clone, Copy, Debug, PartialEq, Eq)]
pub enum SupervisorAction {
    /// Read the access list file and publish the new list.
    ReloadAccessList,
    /// Close the channels and let the workers finish.
    Shutdown,
    /// Nothing: the tracker is stopping already.
    Ignore,
}

/// The kinds of workers.
#[derive(Clone, Copy, Debug, PartialEq, Eq)]
pub enum WorkerKind {
    /// Owns one shard of the swarm store.
    Request,
    /// Owns one socket.
    Socket,
    /// Replaces the connection-id secret when its time has come.
    Cleaner,
    /// Collects the counters of the others.
    Statistics,
}

/// A worker that is to be started.
#[derive(Clone, Copy, Debug, PartialEq, Eq)]
pub struct WorkerSpec {
    pub kind: WorkerKind,
    /// The index of the worker among those of its kind.
    pub index: usize,
}

/// The workers that a configuration asks for, in the order in which they are
/// started: the request workers, then the socket workers, then the cleaner,
/// then the collector of statistics if statistics are wanted.
pub open spec fn planned_workers(config: Config) -> Seq<WorkerSpec> {
    Seq::new(
        config.request_workers as nat,
        |i: int| WorkerSpec { kind: WorkerKind::Request, index: i as usize },
    ) + Seq::new(
        config.socket_workers as nat,
        |i: int| WorkerSpec { kind: WorkerKind::Socket, index: i as usize },
    ) + seq![WorkerSpec { kind: WorkerKind::Cleaner, index: 0 }] + if config.statistics.interval
        != 0 {
        seq![WorkerSpec { kind: WorkerKind::Statistics, index: 0 }]
    } else {
        Seq::empty()
    }
}

/// The workers to start for a configuration, or why the tracker cannot
/// start with it.
pub fn worker_plan(config: &Config) -> (plan: Result<Vec<WorkerSpec>, ConfigError>)
    ensures
        match plan {
            Ok(workers) => config.check() is Ok && workers@ == planned_workers(*config),
            Err(error) => config.check() == Err::<(), ConfigError>(error),
        },
{
    match config.validate() {
        Err(error) => {
            return Err(error);
        },
        Ok(()) => {},
    }
    let mut workers: Vec<WorkerSpec> = Vec::new();
    let mut i: usize = 0;
    while i < config.request_workers
        invariant
            i <= config.request_workers,
            workers@ == Seq::new(
                i as nat,
                |k: int| WorkerSpec { kind: WorkerKind::Request, index: k as usize },
            ),
        decreases config.request_workers - i,
    {
        workers.push(WorkerSpec { kind: WorkerKind::Request, index: i });
        i += 1;
        assert(workers@ =~= Seq::new(
            i as nat,
            |k: int| WorkerSpec { kind: WorkerKind::Request, index: k as usize },
        ));
    }
    let ghost first = workers@;
    let mut j: usize = 0;
    while j < config.socket_workers
        invariant
            j <= config.socket_workers,
            workers@ == first + Seq::new(
                j as nat,
                |k: int| WorkerSpec { kind: WorkerKind::Socket, index: k as usize },
            ),
        decreases config.socket_workers - j,
    {
        workers.push(WorkerSpec { kind: WorkerKind::Socket, index: j });
        j += 1;
        assert(workers@ =~= first + Seq::new(
            j as nat,
            |k: int| WorkerSpec { kind: WorkerKind::Socket, index: k as usize },
        ));
    }
    workers.push(WorkerSpec { kind: WorkerKind::Cleaner, index: 0 });
    if config.statistics.active() {
        workers.push(WorkerSpec { kind: WorkerKind::Statistics, index: 0 });
    }
    assert(workers@ =~= planned_workers(*config));
    Ok(workers)
}

/// The supervisor: it runs until it is told to stop.
#[derive(Clone, Copy, Debug, PartialEq, Eq)]
pub struct Supervisor {
    running: bool,
}

impl Supervisor {
    /// Whether the tracker has not been told to stop.
    pub closed spec fn running(&self) -> bool {
        self.running
    }

    /// A supervisor of a tracker that runs.
    pub fn new() -> (supervisor: Supervisor)
        ensures
            supervisor.running(),
    {
        Supervisor { running: true }
    }

    /// Whether the tracker has not been told to stop.
    pub fn is_running(&self) -> (running: bool)
        ensures
            running == self.running(),
    {
        self.running
    }

    /// What to do about a signal. While the tracker runs, `User1` reloads the
    /// access list and `Terminate` stops the tracker; once it is stopping,
    /// signals are ignored.
    pub fn on_signal(&mut self, signal: Signal) -> (action: SupervisorAction)
        ensures
            action == if !old(self).running() {
                SupervisorAction::Ignore
            } else {
                match signal {
                    Signal::User1 => SupervisorAction::ReloadAccessList,
                    Signal::Terminate => SupervisorAction::Shutdown,
                }
            },
            final(self).running() == (old(self).running() && signal is User1),
    {
        if !self.running {
            return SupervisorAction::Ignore;
        }
        match signal {
            Signal::User1 => SupervisorAction::ReloadAccessList,
            Signal::Terminate => {
                self.running = false;
                SupervisorAction::Shutdown
            },
        }
    }
}

} // verus!
