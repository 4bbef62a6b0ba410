//! What a request worker does with the requests that reach it: it owns one
//! shard of the swarm store, changes it as the requests say, and answers.

use crate::access_list::AccessList;
use crate::config::Config;
use crate::peer::{count_seeders, selected_peers, AnnounceEvent, IpAddress, IpFamily, Peer, PeerAddress};
use crate::protocol::request::{AnnounceRequest, ScrapeRequest};
use crate::protocol::response::{AnnounceResponse, ScrapeResponse, ScrapeStatistics};
use crate::swarm::{SwarmShard, TorrentStatistics};
use vstd::prelude::*;

verus! {

/// The time until which a peer that announces at `now` counts as present:
/// `now` and as many announce intervals as are tolerated, or the largest
/// time there is if that cannot be told.
pub open spec fn valid_until_after(now: u64, interval: u32, tolerance: u32) -> u64 {
    if now + interval * tolerance <= u64::MAX {
        (now + interval * tolerance) as u64
    } else {
        u64::MAX
    }
}

/// How many peers an announce is answered with at most: what the client asks
/// for, capped by the tracker's limit; the tracker's limit if the client
/// asks for nothing positive.
pub open spec fn response_limit(num_want: i32, max_peers: usize) -> usize {
    if num_want <= 0 || num_want >= max_peers {
        max_peers
    } else {
        num_want as usize
    }
}

/// A count as it stands on the wire: cut at the largest number that 32 bits
/// hold.
pub open spec fn wire_count(count: nat) -> u32 {
    if count <= u32::MAX {
        count as u32
    } else {
        u32::MAX
    }
}

/// The peer that an `announce` from an address stands for.
///
/// Its address is the one the request came from, with the port that the
/// request names. It is a seeder if it reports `completed` or has nothing
/// left to fetch.
pub open spec fn announced_peer(
    request: AnnounceRequest,
    source: IpAddress,
    now: u64,
    interval: u32,
    tolerance: u32,
) -> Peer {
    Peer {
        peer_id: request.peer_id,
        address: PeerAddress { ip: source, port: request.port },
        is_seeder: request.event is Completed || request.left == 0,
        valid_until: valid_until_after(now, interval, tolerance),
    }
}

/// The addresses of the peers, in their order.
pub open spec fn addresses_of(peers: Seq<Peer>) -> Seq<PeerAddress> {
    Seq::new(peers.len(), |i: int| peers[i].address)
}

/// The counters of a torrent as they stand on the wire.
pub open spec fn wire_statistics(peers: Seq<Peer>, completed: u64) -> ScrapeStatistics {
    ScrapeStatistics {
        seeders: wire_count(count_seeders(peers)),
        completed: wire_count(completed as nat),
        leechers: wire_count((peers.len() - count_seeders(peers)) as nat),
    }
}

/// That `response` answers an `announce` that came from `source` at the time
/// `now`, and `after` is the shard `before` after it.
///
/// If the access list does not allow the torrent, the shard is as it was and
/// the answer names no peers and counts none. Otherwise the peer that the
/// request stands for is recorded or removed as its event says, and the
/// answer counts the torrent's seeders and leechers and names other peers of
/// the torrent.
pub open spec fn announce_handled(
    before: &SwarmShard,
    after: &SwarmShard,
    listed: Set<Seq<u8>>,
    config: &Config,
    request: AnnounceRequest,
    source: IpAddress,
    now: u64,
    offset: usize,
    response: AnnounceResponse,
) -> bool {
    &&& response.transaction_id == request.transaction_id
    &&& response.interval == config.peer_announce_interval
    &&& if AccessList::allowed(listed, config.access_list.mode, request.info_hash@) {
        let peer = announced_peer(
            request,
            source,
            now,
            config.peer_announce_interval,
            config.peer_tolerance_factor,
        );
        let stored = after.peers_of(source.family(), request.info_hash@);
        &&& before.announced(after, request.info_hash@, peer, request.event)
        &&& response.peers@ == addresses_of(
            selected_peers(
                stored,
                request.peer_id@,
                response_limit(request.num_want, config.max_peers) as nat,
                offset as nat,
            ),
        )
        &&& response.seeders == wire_count(count_seeders(stored))
        &&& response.leechers == wire_count((stored.len() - count_seeders(stored)) as nat)
    } else {
        &&& *after == *before
        &&& response.peers@.len() == 0
        &&& response.seeders == 0
        &&& response.leechers == 0
    }
}

/// That `response` answers a `scrape` that came over the family: it holds
/// the counters of each torrent named, in the order of the request, zeros
/// for a torrent that the shard does not hold, but for no more than
/// `max_scrape_torrents` torrents.
pub open spec fn scrape_handled(
    shard: &SwarmShard,
    family: IpFamily,
    request: ScrapeRequest,
    max_scrape_torrents: usize,
    response: ScrapeResponse,
) -> bool {
    &&& response.transaction_id == request.transaction_id
    &&& response.statistics@.len() == if request.info_hashes@.len() <= max_scrape_torrents {
        request.info_hashes@.len()
    } else {
        max_scrape_torrents as nat
    }
    &&& forall|i: int|
        0 <= i < response.statistics@.len() ==> #[trigger] response.statistics@[i]
            == wire_statistics(
            shard.peers_of(family, request.info_hashes@[i]@),
            shard.completed_of(family, request.info_hashes@[i]@),
        )
}

/// A request that a socket worker has found to come from where it says.
#[derive(Clone, Debug, PartialEq, Eq)]
pub enum ConnectedRequest {
    Announce(AnnounceRequest),
    Scrape(ScrapeRequest),
}

/// The answer of a request worker.
#[derive(Clone, Debug, PartialEq, Eq)]
pub enum ConnectedResponse {
    Announce(AnnounceResponse),
    Scrape(ScrapeResponse),
}

/// The time until which a peer that announces at `now` counts as present.
pub fn valid_until(now: u64, interval: u32, tolerance: u32) -> (until: u64)
    ensures
        until == valid_until_after(now, interval, tolerance),
{
    assert(interval * tolerance <= 0xFFFF_FFFF * 0xFFFF_FFFF) by (nonlinear_arith)
        requires
            interval <= 0xFFFF_FFFF,
            tolerance <= 0xFFFF_FFFF,
    ;
    let span: u64 = (interval as u64) * (tolerance as u64);
    match now.checked_add(span) {
        Some(until) => until,
        None => u64::MAX,
    }
}

/// How many peers an announce is answered with at most.
pub fn limit_of(num_want: i32, max_peers: usize) -> (limit: usize)
    ensures
        limit == response_limit(num_want, max_peers),
{
    if num_want <= 0 {
        max_peers
    } else if (num_want as u32) as u64 >= max_peers as u64 {
        max_peers
    } else {
        num_want as usize
    }
}

/// A count as it stands on the wire.
pub fn to_wire_count(count: usize) -> (wire: u32)
    ensures
        wire == wire_count(count as nat),
{
    if count as u64 > u32::MAX as u64 {
        u32::MAX
    } else {
        count as u32
    }
}

/// A count of `completed` events as it stands on the wire.
fn completed_to_wire(completed: u64) -> (wire: u32)
    ensures
        wire == wire_count(completed as nat),
{
    if completed > u32::MAX as u64 {
        u32::MAX
    } else {
        completed as u32
    }
}

/// The counters of a torrent as they stand on the wire.
fn to_wire_statistics(statistics: &TorrentStatistics) -> (wire: ScrapeStatistics)
    ensures
        wire.seeders == wire_count(statistics.seeders as nat),
        wire.completed == wire_count(statistics.completed as nat),
        wire.leechers == wire_count(statistics.leechers as nat),
{
    ScrapeStatistics {
        seeders: to_wire_count(statistics.seeders),
        completed: completed_to_wire(statistics.completed),
        leechers: to_wire_count(statistics.leechers),
    }
}

/// The addresses of the peers, in their order.
fn addresses(peers: &Vec<Peer>) -> (addresses: Vec<PeerAddress>)
    ensures
        addresses@ == addresses_of(peers@),
{
    let mut addresses: Vec<PeerAddress> = Vec::new();
    let mut i: usize = 0;
    while i < peers.len()
        invariant
            i <= peers@.len(),
            addresses@.len() == i,
            forall|j: int| 0 <= j < i ==> #[trigger] addresses@[j] == peers@[j].address,
        decreases peers@.len() - i,
    {
        addresses.push(peers[i].address);
        i += 1;
    }
    assert(addresses@ =~= addresses_of(peers@));
    addresses
}

/// Answers an `announce` that came from `source` at the time `now`.
///
/// If the access list does not allow the torrent, nothing is recorded and
/// the answer names no peers and counts none. Otherwise the peer is recorded
/// or removed as its event says, and the answer counts the torrent's seeders
/// and leechers and names other peers of the requester's address family:
/// as many as the client asks for and the tracker allows, taken in a round
/// that begins `offset` places into the torrent's peers. The caller picks
/// `offset` at random.
pub fn handle_announce(
    shard: &mut SwarmShard,
    access_list: &AccessList,
    config: &Config,
    request: &AnnounceRequest,
    source: IpAddress,
    now: u64,
    offset: usize,
) -> (response: AnnounceResponse)
    requires
        old(shard).wf(),
    ensures
        final(shard).wf(),
        announce_handled(
            old(shard),
            final(shard),
            access_list@,
            config,
            *request,
            source,
            now,
            offset,
            response,
        ),
        response.peers@.len() <= config.max_peers,
        forall|i: int|
            0 <= i < response.peers@.len() ==> (#[trigger] response.peers@[i]).ip.family()
                == source.family(),
{
    if !access_list.allows(config.access_list.mode, &request.info_hash.0) {
        return AnnounceResponse {
            transaction_id: request.transaction_id,
            interval: config.peer_announce_interval,
            leechers: 0,
            seeders: 0,
            peers: Vec::new(),
        };
    }
    let is_seeder = match request.event {
        AnnounceEvent::Completed => true,
        _ => request.left == 0,
    };
    let peer = Peer {
        peer_id: request.peer_id,
        address: PeerAddress { ip: source, port: request.port },
        is_seeder,
        valid_until: valid_until(now, config.peer_announce_interval, config.peer_tolerance_factor),
    };
    let limit = limit_of(request.num_want, config.max_peers);
    let outcome = shard.announce(&request.info_hash, peer, request.event, limit, offset);
    let peers = addresses(&outcome.peers);
    AnnounceResponse {
        transaction_id: request.transaction_id,
        interval: config.peer_announce_interval,
        leechers: to_wire_count(outcome.leechers),
        seeders: to_wire_count(outcome.seeders),
        peers,
    }
}

/// Answers a `scrape` that came over the family: the counters of each
/// torrent named, in the order of the request, zeros for a torrent that the
/// shard does not hold. No more than `max_scrape_torrents` torrents are
/// answered for: what the request names beyond that is left out.
pub fn handle_scrape(
    shard: &SwarmShard,
    family: IpFamily,
    request: &ScrapeRequest,
    max_scrape_torrents: usize,
) -> (response: ScrapeResponse)
    requires
        shard.wf(),
    ensures
        scrape_handled(shard, family, *request, max_scrape_torrents, response),
{
    let count = if request.info_hashes.len() <= max_scrape_torrents {
        request.info_hashes.len()
    } else {
        max_scrape_torrents
    };
    let mut statistics: Vec<ScrapeStatistics> = Vec::new();
    let mut i: usize = 0;
    while i < count
        invariant
            shard.wf(),
            i <= count <= request.info_hashes@.len(),
            statistics@.len() == i,
            forall|j: int|
                0 <= j < i ==> #[trigger] statistics@[j] == wire_statistics(
                    shard.peers_of(family, request.info_hashes@[j]@),
                    shard.completed_of(family, request.info_hashes@[j]@),
                ),
        decreases count - i,
    {
        let found = shard.scrape(family, &request.info_hashes[i]);
        statistics.push(to_wire_statistics(&found));
        i += 1;
    }
    ScrapeResponse { transaction_id: request.transaction_id, statistics }
}

/// Answers a request that came from `source` at the time `now`: an
/// `announce` as [`handle_announce`] does, a `scrape` as [`handle_scrape`]
/// does, over the family of the source address. A `scrape` leaves the shard
/// as it is.
pub fn handle_request(
    shard: &mut SwarmShard,
    access_list: &AccessList,
    config: &Config,
    request: &ConnectedRequest,
    source: IpAddress,
    now: u64,
    offset: usize,
) -> (response: ConnectedResponse)
    requires
        old(shard).wf(),
    ensures
        final(shard).wf(),
        match (*request, response) {
            (ConnectedRequest::Announce(asked), ConnectedResponse::Announce(answered)) => {
                announce_handled(
                    old(shard),
                    final(shard),
                    access_list@,
                    config,
                    asked,
                    source,
                    now,
                    offset,
                    answered,
                )
            },
            (ConnectedRequest::Scrape(asked), ConnectedResponse::Scrape(answered)) => {
                &&& *final(shard) == *old(shard)
                &&& scrape_handled(
                    old(shard),
                    source.family(),
                    asked,
                    config.max_scrape_torrents,
                    answered,
                )
            },
            _ => false,
        },
{
    match request {
        ConnectedRequest::Announce(asked) => ConnectedResponse::Announce(
            handle_announce(shard, access_list, config, asked, source, now, offset),
        ),
        ConnectedRequest::Scrape(asked) => ConnectedResponse::Scrape(
            handle_scrape(shard, source.family(), asked, config.max_scrape_torrents),
        ),
    }
}

} // verus!
