//! The counters that each worker keeps, and their sum.

use vstd::prelude::*;

verus! {

/// What one worker has counted.
#[derive(Clone, Copy, Debug, PartialEq, Eq)]
pub struct WorkerCounters {
    /// Requests that were taken on.
    pub requests: u64,
    /// Responses that were sent.
    pub responses: u64,
    pub bytes_received: u64,
    pub bytes_sent: u64,
    /// Datagrams that were dropped because they were no requests, and
    /// requests that were dropped because a channel was full.
    pub dropped: u64,
    /// Peers that the worker's shard holds.
    pub peers: u64,
}

/// How an attempt to hand a message to another worker ended.
#[derive(Clone, Copy, Debug, PartialEq, Eq)]
pub enum SendOutcome {
    /// The channel took the message.
    Sent,
    /// The channel is full: the message is dropped. The sender does not
    /// wait.
    Full,
    /// The other worker is gone.
    Disconnected,
}

/// A sum that stops at the largest number there is.
pub open spec fn capped(sum: int) -> u64 {
    if sum <= u64::MAX {
        sum as u64
    } else {
        u64::MAX
    }
}

/// The sum of what a closure picks from each worker's counters.
pub open spec fn total(workers: Seq<WorkerCounters>, pick: spec_fn(WorkerCounters) -> u64) -> int
    decreases workers.len(),
{
    if workers.len() == 0 {
        0
    } else {
        total(workers.drop_last(), pick) + pick(workers.last())
    }
}

/// The sum of two counters, or the largest number there is.
fn add_capped(sum: u64, more: u64) -> (capped_sum: u64)
    ensures
        capped_sum == capped(sum + more),
{
    match sum.checked_add(more) {
        Some(both) => both,
        None => u64::MAX,
    }
}

impl WorkerCounters {
    /// Counters that have counted nothing.
    pub fn new() -> (counters: WorkerCounters)
        ensures
            counters == (WorkerCounters {
                requests: 0,
                responses: 0,
                bytes_received: 0,
                bytes_sent: 0,
                dropped: 0,
                peers: 0,
            }),
    {
        WorkerCounters {
            requests: 0,
            responses: 0,
            bytes_received: 0,
            bytes_sent: 0,
            dropped: 0,
            peers: 0,
        }
    }

    /// Counts a request of `bytes` bytes that was taken on.
    pub fn count_request(&mut self, bytes: usize)
        ensures
            *final(self) == (WorkerCounters {
                requests: capped(old(self).requests + 1),
                bytes_received: capped(old(self).bytes_received + bytes),
                ..*old(self)
            }),
    {
        self.requests = add_capped(self.requests, 1);
        self.bytes_received = add_capped(self.bytes_received, bytes as u64);
    }

    /// Counts a response of `bytes` bytes that was sent.
    pub fn count_response(&mut self, bytes: usize)
        ensures
            *final(self) == (WorkerCounters {
                responses: capped(old(self).responses + 1),
                bytes_sent: capped(old(self).bytes_sent + bytes),
                ..*old(self)
            }),
    {
        self.responses = add_capped(self.responses, 1);
        self.bytes_sent = add_capped(self.bytes_sent, bytes as u64);
    }

    /// Counts a datagram that was dropped.
    pub fn count_drop(&mut self)
        ensures
            *final(self) == (WorkerCounters {
                dropped: capped(old(self).dropped + 1),
                ..*old(self)
            }),
    {
        self.dropped = add_capped(self.dropped, 1);
    }

    /// Counts how handing a message to another worker ended: a message that
    /// met a full channel is counted as dropped.
    pub fn count_send(&mut self, outcome: SendOutcome)
        ensures
            *final(self) == (WorkerCounters {
                dropped: if outcome is Full {
                    capped(old(self).dropped + 1)
                } else {
                    old(self).dropped
                },
                ..*old(self)
            }),
    {
        match outcome {
            SendOutcome::Full => {
                self.dropped = add_capped(self.dropped, 1);
            },
            _ => {},
        }
    }
}

/// The counters of all workers together: each is the sum over the workers,
/// or the largest number there is if the sum is larger.
pub fn aggregate(workers: &Vec<WorkerCounters>) -> (sum: WorkerCounters)
    ensures
        sum.requests == capped(total(workers@, |w: WorkerCounters| w.requests)),
        sum.responses == capped(total(workers@, |w: WorkerCounters| w.responses)),
        sum.bytes_received == capped(total(workers@, |w: WorkerCounters| w.bytes_received)),
        sum.bytes_sent == capped(total(workers@, |w: WorkerCounters| w.bytes_sent)),
        sum.dropped == capped(total(workers@, |w: WorkerCounters| w.dropped)),
        sum.peers == capped(total(workers@, |w: WorkerCounters| w.peers)),
{
    let mut sum = WorkerCounters::new();
    let mut i: usize = 0;
    assert(workers@.subrange(0, 0) =~= Seq::<WorkerCounters>::empty());
    while i < workers.len()
        invariant
            i <= workers@.len(),
            sum.requests == capped(
                total(workers@.subrange(0, i as int), |w: WorkerCounters| w.requests),
            ),
            sum.responses == capped(
                total(workers@.subrange(0, i as int), |w: WorkerCounters| w.responses),
            ),
            sum.bytes_received == capped(
                total(workers@.subrange(0, i as int), |w: WorkerCounters| w.bytes_received),
            ),
            sum.bytes_sent == capped(
                total(workers@.subrange(0, i as int), |w: WorkerCounters| w.bytes_sent),
            ),
            sum.dropped == capped(
                total(workers@.subrange(0, i as int), |w: WorkerCounters| w.dropped),
            ),
            sum.peers == capped(total(workers@.subrange(0, i as int), |w: WorkerCounters| w.peers)),
        decreases workers@.len() - i,
    {
        let one = workers[i];
        proof {
            assert(workers@.subrange(0, i + 1).drop_last() =~= workers@.subrange(0, i as int));
            lemma_total_nonnegative(
                workers@.subrange(0, i as int),
                |w: WorkerCounters| w.requests,
            );
            lemma_total_nonnegative(
                workers@.subrange(0, i as int),
                |w: WorkerCounters| w.responses,
            );
            lemma_total_nonnegative(
                workers@.subrange(0, i as int),
                |w: WorkerCounters| w.bytes_received,
            );
            lemma_total_nonnegative(
                workers@.subrange(0, i as int),
                |w: WorkerCounters| w.bytes_sent,
            );
            lemma_total_nonnegative(workers@.subrange(0, i as int), |w: WorkerCounters| w.dropped);
            lemma_total_nonnegative(workers@.subrange(0, i as int), |w: WorkerCounters| w.peers);
        }
        sum = WorkerCounters {
            requests: add_capped(sum.requests, one.requests),
            responses: add_capped(sum.responses, one.responses),
            bytes_received: add_capped(sum.bytes_received, one.bytes_received),
            bytes_sent: add_capped(sum.bytes_sent, one.bytes_sent),
            dropped: add_capped(sum.dropped, one.dropped),
            peers: add_capped(sum.peers, one.peers),
        };
        i += 1;
    }
    assert(workers@.subrange(0, i as int) =~= workers@);
    sum
}

/// A sum of counters is not negative.
proof fn lemma_total_nonnegative(workers: Seq<WorkerCounters>, pick: spec_fn(WorkerCounters) -> u64)
    ensures
        total(workers, pick) >= 0,
    decreases workers.len(),
{
    if workers.len() > 0 {
        lemma_total_nonnegative(workers.drop_last(), pick);
    }
}

} // verus!
