//! What a socket worker of the UDP protocol decides for each datagram: to
//! answer it, to hand it to the request worker that owns the torrent, or to
//! drop it without a word.

use crate::be::be_u64;
use crate::connection_id::{connection_id_under, ConnectionId, ConnectionValidator};
use crate::dispatch::{owner_of, scrape_owners, shard_index};
use crate::peer::IpAddress;
use crate::protocol::request::{
    parse_request, request_bytes, request_error, AnnounceRequest, Request, RequestParseError,
    ScrapeRequest,
};
use crate::protocol::response::{Response, ScrapeStatistics};
use vstd::prelude::*;

verus! {

/// Why a datagram is dropped. Nothing is sent back in either case: an answer
/// would go to an address that may not have asked.
#[derive(Clone, Copy, Debug, PartialEq, Eq)]
pub enum DropReason {
    /// The datagram is no request.
    Malformed(RequestParseError),
    /// The connection id was not issued to the address the datagram came
    /// from, or not under a secret that is still accepted.
    InvalidConnectionId,
}

/// What is to be done with a datagram.
#[derive(Debug)]
pub enum DatagramAction {
    /// Send this response to where the datagram came from.
    Respond(Response),
    /// Hand the `announce` to the request worker with this index.
    ForwardAnnounce { worker: usize, announce: AnnounceRequest },
    /// Hand the `scrape` to the request workers that own its torrents:
    /// `owners` names one for each info-hash of the request, in their order.
    ForwardScrape { owners: Vec<usize>, scrape: ScrapeRequest },
    /// Forget the datagram.
    Drop(DropReason),
}

/// Decides what is to be done with a datagram that came from `source`.
///
/// A datagram that is no request is dropped. A `connect` is answered at once
/// with the connection id of the source address. An `announce` or a `scrape`
/// is forwarded if its connection id is one that was issued to the source
/// address under the current or the previous secret, and dropped if not.
pub fn handle_datagram(
    validator: &ConnectionValidator,
    bytes: &[u8],
    source: &IpAddress,
    request_workers: usize,
) -> (action: DatagramAction)
    requires
        request_workers > 0,
    ensures
        match action {
            DatagramAction::Respond(response) => {
                &&& response matches Response::Connect { transaction_id, connection_id }
                &&& request_bytes(Request::Connect { transaction_id }) == bytes@
                &&& connection_id == connection_id_under(validator.current(), *source)
            },
            DatagramAction::ForwardAnnounce { worker, announce } => {
                &&& request_bytes(Request::Announce(announce)) == bytes@
                &&& validator.accepts(announce.connection_id, *source)
                &&& worker == owner_of(announce.info_hash@, request_workers as nat)
            },
            DatagramAction::ForwardScrape { owners, scrape } => {
                &&& request_bytes(Request::Scrape(scrape)) == bytes@
                &&& validator.accepts(scrape.connection_id, *source)
                &&& owners@.len() == scrape.info_hashes@.len()
                &&& forall|i: int|
                    0 <= i < owners@.len() ==> #[trigger] owners@[i] == owner_of(
                        scrape.info_hashes@[i]@,
                        request_workers as nat,
                    )
            },
            DatagramAction::Drop(DropReason::Malformed(error)) => request_error(bytes@) == Some(
                error,
            ),
            DatagramAction::Drop(DropReason::InvalidConnectionId) => {
                &&& request_error(bytes@) is None
                &&& crate::be::be_u32(bytes@.subrange(8, 12)) != 0
                &&& !validator.accepts(be_u64(bytes@.subrange(0, 8)), *source)
            },
        },
{
    match parse_request(bytes) {
        Err(error) => DatagramAction::Drop(DropReason::Malformed(error)),
        Ok(Request::Connect { transaction_id }) => {
            let id = validator.issue(source);
            DatagramAction::Respond(Response::Connect { transaction_id, connection_id: id.0 })
        },
        Ok(Request::Announce(request)) => {
            proof {
                crate::protocol::request::lemma_request_head(Request::Announce(request));
            }
            if validator.verify(ConnectionId(request.connection_id), source) {
                let worker = shard_index(&request.info_hash, request_workers);
                DatagramAction::ForwardAnnounce { worker, announce: request }
            } else {
                DatagramAction::Drop(DropReason::InvalidConnectionId)
            }
        },
        Ok(Request::Scrape(request)) => {
            proof {
                crate::protocol::request::lemma_request_head(Request::Scrape(request));
            }
            if validator.verify(ConnectionId(request.connection_id), source) {
                let owners = scrape_owners(&request.info_hashes, request_workers);
                DatagramAction::ForwardScrape { owners, scrape: request }
            } else {
                DatagramAction::Drop(DropReason::InvalidConnectionId)
            }
        },
    }
}

/// Puts the answers of the request workers to one `scrape` together.
///
/// Each worker answers for every info-hash of the request; `answers` holds
/// the counters that the worker with that index returned. For each info-hash
/// the counters are taken from the worker that owns the torrent. If the
/// answer of an owner is missing or too short, there is no result.
pub fn merge_scrape(owners: &Vec<usize>, answers: &Vec<Vec<ScrapeStatistics>>) -> (merged: Option<
    Vec<ScrapeStatistics>,
>)
    ensures
        merged is Some <==> forall|i: int|
            0 <= i < owners@.len() ==> (#[trigger] owners@[i]) < answers@.len()
                && i < answers@[owners@[i] as int]@.len(),
        merged matches Some(all) ==> all@.len() == owners@.len() && forall|i: int|
            0 <= i < all@.len() ==> #[trigger] all@[i] == answers@[owners@[i] as int]@[i],
{
    let mut all: Vec<ScrapeStatistics> = Vec::new();
    let mut i: usize = 0;
    while i < owners.len()
        invariant
            i <= owners@.len(),
            all@.len() == i,
            forall|j: int|
                0 <= j < i ==> (#[trigger] owners@[j]) < answers@.len() && j
                    < answers@[owners@[j] as int]@.len(),
            forall|j: int| 0 <= j < i ==> #[trigger] all@[j] == answers@[owners@[j] as int]@[j],
        decreases owners@.len() - i,
    {
        let owner = owners[i];
        if owner >= answers.len() {
            return None;
        }
        if i >= answers[owner].len() {
            return None;
        }
        all.push(answers[owner][i]);
        i += 1;
    }
    Some(all)
}

} // verus!
