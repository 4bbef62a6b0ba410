//! How requests find the worker that owns their torrent.

use crate::be::{be_u64, read_u64};
use crate::ids::InfoHash;
use vstd::array::array_as_slice;
use vstd::prelude::*;

verus! {

/// The request worker that owns a torrent: the first eight bytes of the
/// info-hash, read as a number, modulo the number of request workers.
pub open spec fn owner_of(info_hash: Seq<u8>, request_workers: nat) -> nat {
    (be_u64(info_hash.subrange(0, 8)) as nat) % request_workers
}

/// The request worker that owns a torrent.
pub fn shard_index(info_hash: &InfoHash, request_workers: usize) -> (index: usize)
    requires
        request_workers > 0,
    ensures
        index == owner_of(info_hash@, request_workers as nat),
        index < request_workers,
{
    let bytes = array_as_slice(&info_hash.0);
    assert(bytes@.subrange(0, 8) =~= info_hash@.subrange(0, 8));
    let number = read_u64(bytes, 0);
    (number % (request_workers as u64)) as usize
}

/// The request workers that own the torrents of a scrape, one for each
/// info-hash, in the order of the info-hashes.
pub fn scrape_owners(info_hashes: &Vec<InfoHash>, request_workers: usize) -> (owners: Vec<usize>)
    requires
        request_workers > 0,
    ensures
        owners@.len() == info_hashes@.len(),
        forall|i: int|
            0 <= i < owners@.len() ==> #[trigger] owners@[i] == owner_of(
                info_hashes@[i]@,
                request_workers as nat,
            ),
{
    let mut owners: Vec<usize> = Vec::new();
    let mut i: usize = 0;
    while i < info_hashes.len()
        invariant
            request_workers > 0,
            i <= info_hashes@.len(),
            owners@.len() == i,
            forall|j: int|
                0 <= j < i ==> #[trigger] owners@[j] == owner_of(
                    info_hashes@[j]@,
                    request_workers as nat,
                ),
        decreases info_hashes@.len() - i,
    {
        owners.push(shard_index(&info_hashes[i], request_workers));
        i += 1;
    }
    owners
}

/// Whether a channel between two workers ever refuses a message.
#[derive(Clone, Copy, Debug, PartialEq, Eq)]
pub enum ChannelKind {
    /// The channel takes every message: its producer never waits.
    Unbounded,
    /// The channel holds at most `capacity` messages.
    Bounded { capacity: usize },
}

/// The kind of the channels between workers: a size of zero asks for
/// channels without a bound.
pub fn channel_kind(worker_channel_size: usize) -> (kind: ChannelKind)
    ensures
        kind == if worker_channel_size == 0 {
            ChannelKind::Unbounded
        } else {
            (ChannelKind::Bounded { capacity: worker_channel_size })
        },
{
    if worker_channel_size == 0 {
        ChannelKind::Unbounded
    } else {
        ChannelKind::Bounded { capacity: worker_channel_size }
    }
}

/// The place of the channel between a socket worker and a request worker
/// among the channels of one direction: there is one for each pair.
pub open spec fn pair_place(socket_worker: nat, request_worker: nat, request_workers: nat) -> nat {
    socket_worker * request_workers + request_worker
}

/// The place of the channel between a socket worker and a request worker
/// among the channels of one direction, or `None` if there is no such pair
/// or the channels cannot be counted.
pub fn channel_place(
    socket_worker: usize,
    request_worker: usize,
    socket_workers: usize,
    request_workers: usize,
) -> (place: Option<usize>)
    ensures
        place is Some <==> socket_worker < socket_workers && request_worker < request_workers
            && socket_workers * request_workers <= usize::MAX,
        place matches Some(p) ==> p == pair_place(
            socket_worker as nat,
            request_worker as nat,
            request_workers as nat,
        ) && p < socket_workers * request_workers,
{
    if socket_worker >= socket_workers || request_worker >= request_workers {
        return None;
    }
    match socket_workers.checked_mul(request_workers) {
        None => None,
        Some(total) => {
            assert(socket_worker * request_workers + request_worker < socket_workers
                * request_workers) by (nonlinear_arith)
                requires
                    socket_worker < socket_workers,
                    request_worker < request_workers,
            ;
            assert(socket_worker * request_workers >= 0) by (nonlinear_arith);
            Some(socket_worker * request_workers + request_worker)
        },
    }
}

/// No two pairs of workers share a channel.
pub proof fn law_pairs_have_their_own_channel(
    socket_a: nat,
    request_a: nat,
    socket_b: nat,
    request_b: nat,
    request_workers: nat,
)
    requires
        request_a < request_workers,
        request_b < request_workers,
        pair_place(socket_a, request_a, request_workers) == pair_place(
            socket_b,
            request_b,
            request_workers,
        ),
    ensures
        socket_a == socket_b,
        request_a == request_b,
{
    assert(socket_a == socket_b && request_a == request_b) by (nonlinear_arith)
        requires
            request_a < request_workers,
            request_b < request_workers,
            socket_a * request_workers + request_a == socket_b * request_workers + request_b,
    ;
}

} // verus!
