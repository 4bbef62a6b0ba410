//! What the tracker answers: to `connect`, `announce` and `scrape`, or with
//! an error.

use crate::be::{
    be_u32, lemma_be_u16, lemma_be_u32, lemma_be_u64, lemma_u16_bytes,
    lemma_u32_bytes, lemma_u64_bytes, push_bytes, push_u16, push_u32, push_u64, read_array,
    read_u16, read_u32, read_u64, u16_bytes, u32_bytes, u64_bytes,
};
use crate::peer::{IpAddress, IpFamily, PeerAddress};
use vstd::array::array_as_slice;
use vstd::prelude::*;

verus! {

/// The counters of one torrent in the answer to a `scrape`.
#[derive(Clone, Copy, Debug, PartialEq, Eq)]
pub struct ScrapeStatistics {
    pub seeders: u32,
    pub completed: u32,
    pub leechers: u32,
}

/// The answer to an `announce`.
#[derive(Clone, Debug, PartialEq, Eq)]
pub struct AnnounceResponse {
    pub transaction_id: u32,
    /// The seconds after which the peer is to announce again.
    pub interval: u32,
    pub leechers: u32,
    pub seeders: u32,
    pub peers: Vec<PeerAddress>,
}

/// The answer to a `scrape`: the counters of each torrent that was asked
/// for, in the order of the request.
#[derive(Clone, Debug, PartialEq, Eq)]
pub struct ScrapeResponse {
    pub transaction_id: u32,
    pub statistics: Vec<ScrapeStatistics>,
}

/// An answer of the tracker.
#[derive(Clone, Debug, PartialEq, Eq)]
pub enum Response {
    Connect { transaction_id: u32, connection_id: u64 },
    Announce(AnnounceResponse),
    Scrape(ScrapeResponse),
    Error { transaction_id: u32, message: Vec<u8> },
}

/// Why a datagram is no response.
#[derive(Clone, Copy, Debug, PartialEq, Eq)]
pub enum ResponseParseError {
    /// Fewer than the eight bytes that every response begins with.
    TooShort,
    /// The action is none that the protocol knows.
    UnknownAction { action: u32 },
    /// The length is not that of a response with this action.
    BadLength,
}

/// The number of bytes that an address and a port take.
pub open spec fn address_width(family: IpFamily) -> nat {
    match family {
        IpFamily::V4 => 6,
        IpFamily::V6 => 18,
    }
}

/// The bytes of an address and a port.
pub open spec fn peer_address_bytes(address: PeerAddress) -> Seq<u8> {
    address.ip.bytes() + u16_bytes(address.port)
}

/// The bytes of a sequence of addresses, one after the other.
pub open spec fn peer_addresses_bytes(addresses: Seq<PeerAddress>) -> Seq<u8>
    decreases addresses.len(),
{
    if addresses.len() == 0 {
        Seq::empty()
    } else {
        peer_addresses_bytes(addresses.drop_last()) + peer_address_bytes(addresses.last())
    }
}

/// Every address is of the family.
pub open spec fn addresses_of_family(addresses: Seq<PeerAddress>, family: IpFamily) -> bool {
    forall|i: int| 0 <= i < addresses.len() ==> (#[trigger] addresses[i]).ip.family() == family
}

/// The bytes of the counters of one torrent.
pub open spec fn statistics_bytes(statistics: ScrapeStatistics) -> Seq<u8> {
    u32_bytes(statistics.seeders) + u32_bytes(statistics.completed) + u32_bytes(
        statistics.leechers,
    )
}

/// The bytes of the counters of a sequence of torrents, one after the other.
pub open spec fn all_statistics_bytes(statistics: Seq<ScrapeStatistics>) -> Seq<u8>
    decreases statistics.len(),
{
    if statistics.len() == 0 {
        Seq::empty()
    } else {
        all_statistics_bytes(statistics.drop_last()) + statistics_bytes(statistics.last())
    }
}

/// The bytes of a response.
pub open spec fn response_bytes(response: Response) -> Seq<u8> {
    match response {
        Response::Connect { transaction_id, connection_id } => u32_bytes(0) + u32_bytes(
            transaction_id,
        ) + u64_bytes(connection_id),
        Response::Announce(announce) => u32_bytes(1) + u32_bytes(announce.transaction_id)
            + u32_bytes(announce.interval) + u32_bytes(announce.leechers) + u32_bytes(
            announce.seeders,
        ) + peer_addresses_bytes(announce.peers@),
        Response::Scrape(scrape) => u32_bytes(2) + u32_bytes(scrape.transaction_id)
            + all_statistics_bytes(scrape.statistics@),
        Response::Error { transaction_id, message } => u32_bytes(3) + u32_bytes(transaction_id)
            + message@,
    }
}

/// Whether a response can stand on the wire to a client of the family: the
/// peers of an `announce` response all have addresses of that family.
pub open spec fn response_valid(response: Response, family: IpFamily) -> bool {
    match response {
        Response::Announce(announce) => addresses_of_family(announce.peers@, family),
        _ => true,
    }
}

/// Why a datagram is no response to a client of the family, or `None` if it
/// is one.
pub open spec fn response_error(bytes: Seq<u8>, family: IpFamily) -> Option<ResponseParseError> {
    if bytes.len() < 8 {
        Some(ResponseParseError::TooShort)
    } else {
        let action = be_u32(bytes.subrange(0, 4));
        if action == 0 {
            if bytes.len() != 16 {
                Some(ResponseParseError::BadLength)
            } else {
                None
            }
        } else if action == 1 {
            if bytes.len() < 20 || (bytes.len() - 20) % (address_width(family) as int) != 0 {
                Some(ResponseParseError::BadLength)
            } else {
                None
            }
        } else if action == 2 {
            if (bytes.len() - 8) % 12 != 0 {
                Some(ResponseParseError::BadLength)
            } else {
                None
            }
        } else if action == 3 {
            None
        } else {
            Some(ResponseParseError::UnknownAction { action })
        }
    }
}

/// Whether two responses say the same.
pub open spec fn same_response(a: Response, b: Response) -> bool {
    match (a, b) {
        (
            Response::Connect { transaction_id: t, connection_id: c },
            Response::Connect { transaction_id: u, connection_id: d },
        ) => t == u && c == d,
        (Response::Announce(x), Response::Announce(y)) => {
            &&& x.transaction_id == y.transaction_id
            &&& x.interval == y.interval
            &&& x.leechers == y.leechers
            &&& x.seeders == y.seeders
            &&& x.peers@ == y.peers@
        },
        (Response::Scrape(x), Response::Scrape(y)) => {
            &&& x.transaction_id == y.transaction_id
            &&& x.statistics@ == y.statistics@
        },
        (
            Response::Error { transaction_id: t, message: m },
            Response::Error { transaction_id: u, message: n },
        ) => t == u && m@ == n@,
        _ => false,
    }
}

/// The bytes of the addresses after one more address.
pub proof fn lemma_addresses_push(addresses: Seq<PeerAddress>, address: PeerAddress)
    ensures
        peer_addresses_bytes(addresses.push(address)) == peer_addresses_bytes(addresses)
            + peer_address_bytes(address),
{
    assert(addresses.push(address).drop_last() =~= addresses);
}

/// An address of a family takes as many bytes as the family's width.
pub proof fn lemma_address_width(address: PeerAddress)
    ensures
        peer_address_bytes(address).len() == address_width(address.ip.family()),
{
    lemma_u16_bytes(address.port);
}

/// Addresses of one family take the family's width each.
pub proof fn lemma_addresses_len(addresses: Seq<PeerAddress>, family: IpFamily)
    requires
        addresses_of_family(addresses, family),
    ensures
        peer_addresses_bytes(addresses).len() == address_width(family) * addresses.len(),
    decreases addresses.len(),
{
    if addresses.len() > 0 {
        lemma_addresses_len(addresses.drop_last(), family);
        lemma_address_width(addresses.last());
        assert(address_width(family) * addresses.len() == address_width(family) * (
        addresses.len() - 1) + address_width(family)) by (nonlinear_arith);
    }
}

/// The bytes of the counters after the counters of one more torrent.
pub proof fn lemma_statistics_push(all: Seq<ScrapeStatistics>, statistics: ScrapeStatistics)
    ensures
        all_statistics_bytes(all.push(statistics)) == all_statistics_bytes(all) + statistics_bytes(
            statistics,
        ),
        statistics_bytes(statistics).len() == 12,
{
    assert(all.push(statistics).drop_last() =~= all);
    lemma_u32_bytes(statistics.seeders);
    lemma_u32_bytes(statistics.completed);
    lemma_u32_bytes(statistics.leechers);
}

/// The counters of each torrent take twelve bytes.
pub proof fn lemma_statistics_len(all: Seq<ScrapeStatistics>)
    ensures
        all_statistics_bytes(all).len() == 12 * all.len(),
    decreases all.len(),
{
    if all.len() > 0 {
        lemma_statistics_len(all.drop_last());
        lemma_statistics_push(all.drop_last(), all.last());
    }
}

/// Appends the bytes of an address and a port.
fn push_address(out: &mut Vec<u8>, address: &PeerAddress)
    ensures
        final(out)@ == old(out)@ + peer_address_bytes(*address),
{
    match &address.ip {
        IpAddress::V4(octets) => push_bytes(out, array_as_slice(octets)),
        IpAddress::V6(octets) => push_bytes(out, array_as_slice(octets)),
    }
    push_u16(out, address.port);
    assert(out@ =~= old(out)@ + peer_address_bytes(*address));
}

/// The bytes of a response.
pub fn serialize_response(response: &Response) -> (bytes: Vec<u8>)
    ensures
        bytes@ == response_bytes(*response),
{
    let mut bytes: Vec<u8> = Vec::new();
    match response {
        Response::Connect { transaction_id, connection_id } => {
            push_u32(&mut bytes, 0);
            push_u32(&mut bytes, *transaction_id);
            push_u64(&mut bytes, *connection_id);
            assert(bytes@ =~= response_bytes(*response));
        },
        Response::Announce(announce) => {
            push_u32(&mut bytes, 1);
            push_u32(&mut bytes, announce.transaction_id);
            push_u32(&mut bytes, announce.interval);
            push_u32(&mut bytes, announce.leechers);
            push_u32(&mut bytes, announce.seeders);
            let ghost head = bytes@;
            let mut i: usize = 0;
            while i < announce.peers.len()
                invariant
                    i <= announce.peers@.len(),
                    bytes@ == head + peer_addresses_bytes(announce.peers@.subrange(0, i as int)),
                decreases announce.peers@.len() - i,
            {
                push_address(&mut bytes, &announce.peers[i]);
                proof {
                    let before = announce.peers@.subrange(0, i as int);
                    lemma_addresses_push(before, announce.peers@[i as int]);
                    assert(before.push(announce.peers@[i as int]) =~= announce.peers@.subrange(
                        0,
                        i + 1,
                    ));
                    assert(bytes@ =~= head + peer_addresses_bytes(
                        announce.peers@.subrange(0, i + 1),
                    ));
                }
                i += 1;
            }
            assert(announce.peers@.subrange(0, i as int) =~= announce.peers@);
            assert(bytes@ =~= response_bytes(*response));
        },
        Response::Scrape(scrape) => {
            push_u32(&mut bytes, 2);
            push_u32(&mut bytes, scrape.transaction_id);
            let ghost head = bytes@;
            let mut i: usize = 0;
            while i < scrape.statistics.len()
                invariant
                    i <= scrape.statistics@.len(),
                    bytes@ == head + all_statistics_bytes(scrape.statistics@.subrange(0, i as int)),
                decreases scrape.statistics@.len() - i,
            {
                let ghost earlier = bytes@;
                let statistics = &scrape.statistics[i];
                push_u32(&mut bytes, statistics.seeders);
                push_u32(&mut bytes, statistics.completed);
                push_u32(&mut bytes, statistics.leechers);
                proof {
                    let before = scrape.statistics@.subrange(0, i as int);
                    lemma_statistics_push(before, *statistics);
                    assert(before.push(*statistics) =~= scrape.statistics@.subrange(0, i + 1));
                    assert(bytes@ =~= earlier + statistics_bytes(*statistics));
                    assert(bytes@ =~= head + all_statistics_bytes(
                        scrape.statistics@.subrange(0, i + 1),
                    ));
                }
                i += 1;
            }
            assert(scrape.statistics@.subrange(0, i as int) =~= scrape.statistics@);
        },
        Response::Error { transaction_id, message } => {
            push_u32(&mut bytes, 3);
            push_u32(&mut bytes, *transaction_id);
            push_bytes(&mut bytes, message.as_slice());
        },
    }
    bytes
}

/// Reads an address of the family and a port at `at`.
fn read_address(bytes: &[u8], at: usize, family: IpFamily) -> (address: PeerAddress)
    requires
        at + address_width(family) <= bytes@.len(),
    ensures
        address.ip.family() == family,
        peer_address_bytes(address) == bytes@.subrange(
            at as int,
            at + address_width(family),
        ),
{
    assert(bytes@.len() == bytes.len());
    let address = match family {
        IpFamily::V4 => PeerAddress {
            ip: IpAddress::V4(read_array::<4>(bytes, at)),
            port: read_u16(bytes, at + 4),
        },
        IpFamily::V6 => PeerAddress {
            ip: IpAddress::V6(read_array::<16>(bytes, at)),
            port: read_u16(bytes, at + 16),
        },
    };
    proof {
        let width = address_width(family);
        let port = bytes@.subrange(at + width - 2, at + width);
        lemma_be_u16(port);
        assert(bytes@.subrange(at as int, at + width) =~= bytes@.subrange(
            at as int,
            at + width - 2,
        ) + port);
    }
    address
}

/// Reads a datagram with the action of an `announce` response.
fn parse_announce_response(bytes: &[u8], family: IpFamily) -> (parsed: Result<
    AnnounceResponse,
    ResponseParseError,
>)
    requires
        bytes@.len() >= 8,
        be_u32(bytes@.subrange(0, 4)) == 1,
    ensures
        match parsed {
            Ok(response) => response_error(bytes@, family) is None && response_bytes(
                Response::Announce(response),
            ) == bytes@ && addresses_of_family(response.peers@, family),
            Err(error) => response_error(bytes@, family) == Some(error),
        },
{
    if bytes.len() < 20 {
        return Err(ResponseParseError::BadLength);
    }
    let width: usize = match family {
        IpFamily::V4 => 6,
        IpFamily::V6 => 18,
    };
    let rest = bytes.len() - 20;
    if rest % width != 0 {
        return Err(ResponseParseError::BadLength);
    }
    let count = rest / width;
    let mut peers: Vec<PeerAddress> = Vec::new();
    let mut i: usize = 0;
    while i < count
        invariant
            i <= count,
            width == address_width(family),
            bytes@.len() == 20 + width * count,
            bytes@.len() <= usize::MAX,
            peers@.len() == i,
            addresses_of_family(peers@, family),
            peer_addresses_bytes(peers@) == bytes@.subrange(20, 20 + width * i),
        decreases count - i,
    {
        assert(width * i + width <= width * count) by (nonlinear_arith)
            requires
                i < count,
        ;
        let ghost before = peers@;
        let address = read_address(bytes, 20 + width * i, family);
        peers.push(address);
        proof {
            lemma_addresses_push(before, address);
            assert(width * (i + 1) == width * i + width) by (nonlinear_arith);
            assert(bytes@.subrange(20, 20 + width * i) + bytes@.subrange(
                20 + width * i,
                20 + width * i + width,
            ) =~= bytes@.subrange(20, 20 + width * (i + 1)));
        }
        i += 1;
    }
    let response = AnnounceResponse {
        transaction_id: read_u32(bytes, 4),
        interval: read_u32(bytes, 8),
        leechers: read_u32(bytes, 12),
        seeders: read_u32(bytes, 16),
        peers,
    };
    proof {
        let b = bytes@;
        lemma_be_u32(b.subrange(0, 4));
        lemma_be_u32(b.subrange(4, 8));
        lemma_be_u32(b.subrange(8, 12));
        lemma_be_u32(b.subrange(12, 16));
        lemma_be_u32(b.subrange(16, 20));
        assert(b.subrange(0, 4) + b.subrange(4, 8) + b.subrange(8, 12) + b.subrange(12, 16)
            + b.subrange(16, 20) + b.subrange(20, b.len() as int) =~= b);
    }
    Ok(response)
}

/// Reads a datagram with the action of a `scrape` response.
fn parse_scrape_response(bytes: &[u8], family: IpFamily) -> (parsed: Result<
    ScrapeResponse,
    ResponseParseError,
>)
    requires
        bytes@.len() >= 8,
        be_u32(bytes@.subrange(0, 4)) == 2,
    ensures
        match parsed {
            Ok(response) => response_error(bytes@, family) is None && response_bytes(
                Response::Scrape(response),
            ) == bytes@,
            Err(error) => response_error(bytes@, family) == Some(error),
        },
{
    let rest = bytes.len() - 8;
    if rest % 12 != 0 {
        return Err(ResponseParseError::BadLength);
    }
    let count = rest / 12;
    let mut statistics: Vec<ScrapeStatistics> = Vec::new();
    let mut i: usize = 0;
    while i < count
        invariant
            i <= count,
            bytes@.len() == 8 + 12 * count,
            bytes@.len() <= usize::MAX,
            statistics@.len() == i,
            all_statistics_bytes(statistics@) == bytes@.subrange(8, 8 + 12 * i),
        decreases count - i,
    {
        let ghost before = statistics@;
        let at = 8 + 12 * i;
        let one = ScrapeStatistics {
            seeders: read_u32(bytes, at),
            completed: read_u32(bytes, at + 4),
            leechers: read_u32(bytes, at + 8),
        };
        statistics.push(one);
        proof {
            let b = bytes@;
            lemma_statistics_push(before, one);
            lemma_be_u32(b.subrange(at as int, at + 4));
            lemma_be_u32(b.subrange(at + 4, at + 8));
            lemma_be_u32(b.subrange(at + 8, at + 12));
            assert(statistics_bytes(one) =~= b.subrange(at as int, at + 12));
            assert(b.subrange(8, 8 + 12 * i) + b.subrange(at as int, at + 12) =~= b.subrange(
                8,
                8 + 12 * (i + 1),
            ));
        }
        i += 1;
    }
    let response = ScrapeResponse { transaction_id: read_u32(bytes, 4), statistics };
    proof {
        let b = bytes@;
        lemma_be_u32(b.subrange(0, 4));
        lemma_be_u32(b.subrange(4, 8));
        assert(b.subrange(0, 4) + b.subrange(4, 8) + b.subrange(8, b.len() as int) =~= b);
    }
    Ok(response)
}

/// Reads a datagram as a response to a client of the family.
///
/// The datagram is a response if it has the eight bytes that every response
/// begins with, an action that the protocol knows, and a length that goes
/// with the action and, for the peers of an `announce` response, with the
/// family. The response that is returned is the one whose bytes are the
/// datagram.
pub fn parse_response(bytes: &[u8], family: IpFamily) -> (parsed: Result<
    Response,
    ResponseParseError,
>)
    ensures
        match parsed {
            Ok(response) => response_error(bytes@, family) is None && response_bytes(response)
                == bytes@ && response_valid(response, family),
            Err(error) => response_error(bytes@, family) == Some(error),
        },
{
    if bytes.len() < 8 {
        return Err(ResponseParseError::TooShort);
    }
    let action = read_u32(bytes, 0);
    let ghost b = bytes@;
    if action == 0 {
        if bytes.len() != 16 {
            return Err(ResponseParseError::BadLength);
        }
        let transaction_id = read_u32(bytes, 4);
        let connection_id = read_u64(bytes, 8);
        proof {
            lemma_be_u32(b.subrange(0, 4));
            lemma_be_u32(b.subrange(4, 8));
            lemma_be_u64(b.subrange(8, 16));
            assert(b.subrange(0, 4) + b.subrange(4, 8) + b.subrange(8, 16) =~= b);
        }
        Ok(Response::Connect { transaction_id, connection_id })
    } else if action == 1 {
        match parse_announce_response(bytes, family) {
            Ok(response) => Ok(Response::Announce(response)),
            Err(error) => Err(error),
        }
    } else if action == 2 {
        match parse_scrape_response(bytes, family) {
            Ok(response) => Ok(Response::Scrape(response)),
            Err(error) => Err(error),
        }
    } else if action == 3 {
        let transaction_id = read_u32(bytes, 4);
        let mut message: Vec<u8> = Vec::new();
        let mut i: usize = 8;
        while i < bytes.len()
            invariant
                8 <= i <= bytes@.len(),
                message@ == bytes@.subrange(8, i as int),
            decreases bytes@.len() - i,
        {
            message.push(bytes[i]);
            assert(message@ =~= bytes@.subrange(8, i + 1));
            i += 1;
        }
        proof {
            lemma_be_u32(b.subrange(0, 4));
            lemma_be_u32(b.subrange(4, 8));
            assert(b.subrange(0, 4) + b.subrange(4, 8) + b.subrange(8, b.len() as int) =~= b);
        }
        Ok(Response::Error { transaction_id, message })
    } else {
        Err(ResponseParseError::UnknownAction { action })
    }
}

/// A response that begins with two 32-bit numbers has them in its first
/// eight bytes.
proof fn lemma_response_header(action: u32, transaction_id: u32, rest: Seq<u8>)
    ensures
        (u32_bytes(action) + u32_bytes(transaction_id) + rest).len() == 8 + rest.len(),
        be_u32((u32_bytes(action) + u32_bytes(transaction_id) + rest).subrange(0, 4)) == action,
        be_u32((u32_bytes(action) + u32_bytes(transaction_id) + rest).subrange(4, 8))
            == transaction_id,
        (u32_bytes(action) + u32_bytes(transaction_id) + rest).subrange(
            8,
            (u32_bytes(action) + u32_bytes(transaction_id) + rest).len() as int,
        ) == rest,
{
    lemma_u32_bytes(action);
    lemma_u32_bytes(transaction_id);
    let bytes = u32_bytes(action) + u32_bytes(transaction_id) + rest;
    assert(bytes.subrange(0, 4) =~= u32_bytes(action));
    assert(bytes.subrange(4, 8) =~= u32_bytes(transaction_id));
    assert(bytes.subrange(8, bytes.len() as int) =~= rest);
}

/// What follows the first eight bytes of a response.
pub open spec fn response_rest(response: Response) -> Seq<u8> {
    match response {
        Response::Connect { connection_id, .. } => u64_bytes(connection_id),
        Response::Announce(announce) => u32_bytes(announce.interval) + u32_bytes(announce.leechers)
            + u32_bytes(announce.seeders) + peer_addresses_bytes(announce.peers@),
        Response::Scrape(scrape) => all_statistics_bytes(scrape.statistics@),
        Response::Error { message, .. } => message@,
    }
}

/// The number that stands for the kind of a response on the wire.
pub open spec fn response_action(response: Response) -> u32 {
    match response {
        Response::Connect { .. } => 0,
        Response::Announce(_) => 1,
        Response::Scrape(_) => 2,
        Response::Error { .. } => 3,
    }
}

/// The transaction that a response answers.
pub open spec fn response_transaction_id(response: Response) -> u32 {
    match response {
        Response::Connect { transaction_id, .. } => transaction_id,
        Response::Announce(announce) => announce.transaction_id,
        Response::Scrape(scrape) => scrape.transaction_id,
        Response::Error { transaction_id, .. } => transaction_id,
    }
}

/// A response is its action, its transaction and the rest.
proof fn lemma_response_parts(response: Response)
    ensures
        response_bytes(response) == u32_bytes(response_action(response)) + u32_bytes(
            response_transaction_id(response),
        ) + response_rest(response),
        response_bytes(response).len() == 8 + response_rest(response).len(),
        be_u32(response_bytes(response).subrange(0, 4)) == response_action(response),
        be_u32(response_bytes(response).subrange(4, 8)) == response_transaction_id(response),
        response_bytes(response).subrange(8, response_bytes(response).len() as int)
            == response_rest(response),
{
    lemma_response_header(
        response_action(response),
        response_transaction_id(response),
        response_rest(response),
    );
    assert(response_bytes(response) =~= u32_bytes(response_action(response)) + u32_bytes(
        response_transaction_id(response),
    ) + response_rest(response));
}

/// The bytes of a response that can stand on the wire to a client of the
/// family are read as a response.
pub proof fn law_serialized_response_parses(response: Response, family: IpFamily)
    requires
        response_valid(response, family),
    ensures
        response_error(response_bytes(response), family) is None,
{
    lemma_response_parts(response);
    match response {
        Response::Connect { connection_id, .. } => {
            lemma_u64_bytes(connection_id);
        },
        Response::Announce(announce) => {
            lemma_u32_bytes(announce.interval);
            lemma_u32_bytes(announce.leechers);
            lemma_u32_bytes(announce.seeders);
            lemma_addresses_len(announce.peers@, family);
            let width = address_width(family) as int;
            let count = announce.peers@.len() as int;
            assert((width * count) % width == 0) by (nonlinear_arith)
                requires
                    width > 0,
            ;
        },
        Response::Scrape(scrape) => {
            lemma_statistics_len(scrape.statistics@);
        },
        Response::Error { .. } => {},
    }
}

/// Two addresses of one family with the same bytes are the same.
proof fn lemma_address_bytes_injective(a: PeerAddress, b: PeerAddress)
    requires
        a.ip.family() == b.ip.family(),
        peer_address_bytes(a) == peer_address_bytes(b),
    ensures
        a == b,
{
    lemma_u16_bytes(a.port);
    lemma_u16_bytes(b.port);
    let bytes = peer_address_bytes(a);
    let width = a.ip.bytes().len() as int;
    assert(a.ip.bytes() =~= bytes.subrange(0, width));
    assert(b.ip.bytes() =~= bytes.subrange(0, width));
    assert(u16_bytes(a.port) =~= bytes.subrange(width, width + 2));
    assert(u16_bytes(b.port) =~= bytes.subrange(width, width + 2));
    match (a.ip, b.ip) {
        (IpAddress::V4(x), IpAddress::V4(y)) => {
            assert(x@ =~= y@);
            assert(x == y);
        },
        (IpAddress::V6(x), IpAddress::V6(y)) => {
            assert(x@ =~= y@);
            assert(x == y);
        },
        _ => {},
    }
}

/// Two sequences of addresses of one family with the same bytes are the
/// same.
proof fn lemma_addresses_bytes_injective(a: Seq<PeerAddress>, b: Seq<PeerAddress>, family: IpFamily)
    requires
        addresses_of_family(a, family),
        addresses_of_family(b, family),
        peer_addresses_bytes(a) == peer_addresses_bytes(b),
    ensures
        a == b,
    decreases a.len(),
{
    lemma_addresses_len(a, family);
    lemma_addresses_len(b, family);
    let width = address_width(family) as int;
    assert(a.len() == b.len()) by (nonlinear_arith)
        requires
            width * a.len() == width * b.len(),
            width > 0,
    ;
    if a.len() > 0 {
        let bytes = peer_addresses_bytes(a);
        lemma_address_width(a.last());
        lemma_address_width(b.last());
        lemma_addresses_len(a.drop_last(), family);
        lemma_addresses_len(b.drop_last(), family);
        let cut = bytes.len() - width;
        assert(peer_addresses_bytes(a.drop_last()).len() == cut) by (nonlinear_arith)
            requires
                peer_addresses_bytes(a.drop_last()).len() == width * (a.len() - 1),
                bytes.len() == width * a.len(),
                cut == bytes.len() - width,
        ;
        assert(peer_addresses_bytes(b.drop_last()).len() == cut) by (nonlinear_arith)
            requires
                peer_addresses_bytes(b.drop_last()).len() == width * (b.len() - 1),
                bytes.len() == width * b.len(),
                cut == bytes.len() - width,
        ;
        assert(peer_addresses_bytes(a.drop_last()) =~= bytes.subrange(0, cut));
        assert(peer_addresses_bytes(b.drop_last()) =~= bytes.subrange(0, cut));
        assert(peer_address_bytes(a.last()) =~= bytes.subrange(cut, bytes.len() as int));
        assert(peer_address_bytes(b.last()) =~= bytes.subrange(cut, bytes.len() as int));
        lemma_address_bytes_injective(a.last(), b.last());
        lemma_addresses_bytes_injective(a.drop_last(), b.drop_last(), family);
        assert(a =~= a.drop_last().push(a.last()));
        assert(b =~= b.drop_last().push(b.last()));
    } else {
        assert(a =~= b);
    }
}

/// Two sequences of counters with the same bytes are the same.
proof fn lemma_statistics_bytes_injective(a: Seq<ScrapeStatistics>, b: Seq<ScrapeStatistics>)
    requires
        all_statistics_bytes(a) == all_statistics_bytes(b),
    ensures
        a == b,
    decreases a.len(),
{
    lemma_statistics_len(a);
    lemma_statistics_len(b);
    if a.len() > 0 {
        let bytes = all_statistics_bytes(a);
        lemma_statistics_push(a.drop_last(), a.last());
        lemma_statistics_push(b.drop_last(), b.last());
        lemma_statistics_len(a.drop_last());
        lemma_statistics_len(b.drop_last());
        let cut = bytes.len() - 12;
        assert(all_statistics_bytes(a.drop_last()) =~= bytes.subrange(0, cut));
        assert(all_statistics_bytes(b.drop_last()) =~= bytes.subrange(0, cut));
        let last = bytes.subrange(cut, bytes.len() as int);
        assert(statistics_bytes(a.last()) =~= last);
        assert(statistics_bytes(b.last()) =~= last);
        let x = a.last();
        let y = b.last();
        lemma_u32_bytes(x.seeders);
        lemma_u32_bytes(x.completed);
        lemma_u32_bytes(x.leechers);
        lemma_u32_bytes(y.seeders);
        lemma_u32_bytes(y.completed);
        lemma_u32_bytes(y.leechers);
        assert(u32_bytes(x.seeders) =~= last.subrange(0, 4));
        assert(u32_bytes(y.seeders) =~= last.subrange(0, 4));
        assert(u32_bytes(x.completed) =~= last.subrange(4, 8));
        assert(u32_bytes(y.completed) =~= last.subrange(4, 8));
        assert(u32_bytes(x.leechers) =~= last.subrange(8, 12));
        assert(u32_bytes(y.leechers) =~= last.subrange(8, 12));
        lemma_statistics_bytes_injective(a.drop_last(), b.drop_last());
        assert(a =~= a.drop_last().push(a.last()));
        assert(b =~= b.drop_last().push(b.last()));
    } else {
        assert(a =~= b);
    }
}

/// A response to a client of a family is determined by its bytes: reading
/// the bytes of a response gives that response and no other.
pub proof fn law_response_bytes_injective(a: Response, b: Response, family: IpFamily)
    requires
        response_valid(a, family),
        response_valid(b, family),
        response_bytes(a) == response_bytes(b),
    ensures
        same_response(a, b),
{
    lemma_response_parts(a);
    lemma_response_parts(b);
    match (a, b) {
        (
            Response::Connect { connection_id: c, .. },
            Response::Connect { connection_id: d, .. },
        ) => {
            lemma_u64_bytes(c);
            lemma_u64_bytes(d);
        },
        (Response::Announce(x), Response::Announce(y)) => {
            let rest = response_rest(a);
            lemma_u32_bytes(x.interval);
            lemma_u32_bytes(x.leechers);
            lemma_u32_bytes(x.seeders);
            lemma_u32_bytes(y.interval);
            lemma_u32_bytes(y.leechers);
            lemma_u32_bytes(y.seeders);
            assert(u32_bytes(x.interval) =~= rest.subrange(0, 4));
            assert(u32_bytes(y.interval) =~= rest.subrange(0, 4));
            assert(u32_bytes(x.leechers) =~= rest.subrange(4, 8));
            assert(u32_bytes(y.leechers) =~= rest.subrange(4, 8));
            assert(u32_bytes(x.seeders) =~= rest.subrange(8, 12));
            assert(u32_bytes(y.seeders) =~= rest.subrange(8, 12));
            assert(peer_addresses_bytes(x.peers@) =~= rest.subrange(12, rest.len() as int));
            assert(peer_addresses_bytes(y.peers@) =~= rest.subrange(12, rest.len() as int));
            lemma_addresses_bytes_injective(x.peers@, y.peers@, family);
        },
        (Response::Scrape(x), Response::Scrape(y)) => {
            lemma_statistics_bytes_injective(x.statistics@, y.statistics@);
        },
        _ => {},
    }
}

} // verus!
