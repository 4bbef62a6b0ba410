//! What a client sends: `connect`, `announce` and `scrape`.

use crate::be::{
    be_u16, be_u32, be_u64, lemma_be_u16, lemma_be_u32, lemma_be_u64, lemma_signed_round_trip,
    lemma_u16_bytes, lemma_u32_bytes, lemma_u64_bytes, push_bytes, push_i32, push_u16, push_u32, push_u64, read_i32, read_id,
    read_u16, read_u32, read_u64, u16_bytes, u32_bytes, u64_bytes, unsigned,
};
use crate::ids::{InfoHash, PeerId};
use crate::peer::AnnounceEvent;
use vstd::array::array_as_slice;
use vstd::prelude::*;

verus! {

/// The number that opens every `connect` request.
pub const PROTOCOL_ID: u64 = 0x417_2710_1980;

/// The most info-hashes that one `scrape` may name: what fits in a datagram.
pub const MAX_SCRAPE_TORRENTS: usize = 74;

/// The length of an `announce` request.
pub const ANNOUNCE_REQUEST_LENGTH: usize = 98;

/// An `announce`, as it stands on the wire.
#[derive(Clone, Copy, Debug, PartialEq, Eq)]
pub struct AnnounceRequest {
    pub connection_id: u64,
    pub transaction_id: u32,
    pub info_hash: InfoHash,
    pub peer_id: PeerId,
    pub downloaded: u64,
    /// The bytes that the peer still lacks.
    pub left: u64,
    pub uploaded: u64,
    pub event: AnnounceEvent,
    /// The address that the peer names for itself; zero for the address the
    /// request came from.
    pub ip: u32,
    pub key: u32,
    /// How many peers the client asks for; not positive for the tracker's
    /// own limit.
    pub num_want: i32,
    pub port: u16,
}

/// A `scrape`, as it stands on the wire.
#[derive(Clone, Debug, PartialEq, Eq)]
pub struct ScrapeRequest {
    pub connection_id: u64,
    pub transaction_id: u32,
    pub info_hashes: Vec<InfoHash>,
}

/// A request of a client.
#[derive(Clone, Debug, PartialEq, Eq)]
pub enum Request {
    Connect { transaction_id: u32 },
    Announce(AnnounceRequest),
    Scrape(ScrapeRequest),
}

/// Why a datagram is no request.
#[derive(Clone, Copy, Debug, PartialEq, Eq)]
pub enum RequestParseError {
    /// Fewer than the sixteen bytes that every request begins with.
    TooShort,
    /// The action is none of `connect`, `announce` and `scrape`.
    UnknownAction { action: u32 },
    /// The length is not that of a request with this action.
    BadLength,
    /// A `connect` that does not open with the protocol's number.
    BadProtocolId,
    /// An `announce` with an event that the protocol does not know.
    UnknownEvent { event: u32 },
    /// A `scrape` that names more info-hashes than a datagram may hold.
    TooManyInfoHashes,
}

/// The number that stands for an event on the wire.
pub open spec fn event_code(event: AnnounceEvent) -> u32 {
    match event {
        AnnounceEvent::Update => 0,
        AnnounceEvent::Completed => 1,
        AnnounceEvent::Started => 2,
        AnnounceEvent::Stopped => 3,
    }
}

/// The bytes of a sequence of info-hashes, one after the other.
pub open spec fn info_hashes_bytes(info_hashes: Seq<InfoHash>) -> Seq<u8> {
    Seq::new(20 * info_hashes.len(), |i: int| info_hashes[i / 20]@[i % 20])
}

/// The bytes of an `announce` request.
pub open spec fn announce_request_bytes(request: AnnounceRequest) -> Seq<u8> {
    u64_bytes(request.connection_id) + u32_bytes(1) + u32_bytes(request.transaction_id)
        + request.info_hash@ + request.peer_id@ + u64_bytes(request.downloaded) + u64_bytes(
        request.left,
    ) + u64_bytes(request.uploaded) + u32_bytes(event_code(request.event)) + u32_bytes(request.ip)
        + u32_bytes(request.key) + u32_bytes(unsigned(request.num_want)) + u16_bytes(request.port)
}

/// The bytes of a `scrape` request.
pub open spec fn scrape_request_bytes(request: ScrapeRequest) -> Seq<u8> {
    u64_bytes(request.connection_id) + u32_bytes(2) + u32_bytes(request.transaction_id)
        + info_hashes_bytes(request.info_hashes@)
}

/// The bytes of a request.
pub open spec fn request_bytes(request: Request) -> Seq<u8> {
    match request {
        Request::Connect { transaction_id } => u64_bytes(PROTOCOL_ID) + u32_bytes(0) + u32_bytes(
            transaction_id,
        ),
        Request::Announce(announce) => announce_request_bytes(announce),
        Request::Scrape(scrape) => scrape_request_bytes(scrape),
    }
}

/// Whether a request can stand on the wire: a `scrape` names no more
/// info-hashes than a datagram may hold.
pub open spec fn request_valid(request: Request) -> bool {
    match request {
        Request::Scrape(scrape) => scrape.info_hashes@.len() <= MAX_SCRAPE_TORRENTS,
        _ => true,
    }
}

/// Why a datagram is no request, or `None` if it is one.
pub open spec fn request_error(bytes: Seq<u8>) -> Option<RequestParseError> {
    if bytes.len() < 16 {
        Some(RequestParseError::TooShort)
    } else {
        let action = be_u32(bytes.subrange(8, 12));
        if action == 0 {
            if bytes.len() != 16 {
                Some(RequestParseError::BadLength)
            } else if be_u64(bytes.subrange(0, 8)) != PROTOCOL_ID {
                Some(RequestParseError::BadProtocolId)
            } else {
                None
            }
        } else if action == 1 {
            if bytes.len() != ANNOUNCE_REQUEST_LENGTH {
                Some(RequestParseError::BadLength)
            } else if be_u32(bytes.subrange(80, 84)) > 3 {
                Some(RequestParseError::UnknownEvent { event: be_u32(bytes.subrange(80, 84)) })
            } else {
                None
            }
        } else if action == 2 {
            if (bytes.len() - 16) % 20 != 0 {
                Some(RequestParseError::BadLength)
            } else if (bytes.len() - 16) / 20 > MAX_SCRAPE_TORRENTS {
                Some(RequestParseError::TooManyInfoHashes)
            } else {
                None
            }
        } else {
            Some(RequestParseError::UnknownAction { action })
        }
    }
}

/// Whether two requests say the same.
pub open spec fn same_request(a: Request, b: Request) -> bool {
    match (a, b) {
        (Request::Connect { transaction_id: x }, Request::Connect { transaction_id: y }) => x == y,
        (Request::Announce(x), Request::Announce(y)) => x == y,
        (Request::Scrape(x), Request::Scrape(y)) => {
            &&& x.connection_id == y.connection_id
            &&& x.transaction_id == y.transaction_id
            &&& x.info_hashes@ == y.info_hashes@
        },
        _ => false,
    }
}

/// The event that a number on the wire stands for.
fn event_from_code(code: u32) -> (event: AnnounceEvent)
    requires
        code <= 3,
    ensures
        event_code(event) == code,
{
    if code == 0 {
        AnnounceEvent::Update
    } else if code == 1 {
        AnnounceEvent::Completed
    } else if code == 2 {
        AnnounceEvent::Started
    } else {
        AnnounceEvent::Stopped
    }
}

/// The number that stands for an event on the wire.
fn event_to_code(event: AnnounceEvent) -> (code: u32)
    ensures
        code == event_code(event),
{
    match event {
        AnnounceEvent::Update => 0,
        AnnounceEvent::Completed => 1,
        AnnounceEvent::Started => 2,
        AnnounceEvent::Stopped => 3,
    }
}

/// A sequence of bytes is the bytes of the parts that it is cut into.
proof fn lemma_sixteen(bytes: Seq<u8>)
    requires
        bytes.len() >= 16,
    ensures
        bytes.subrange(0, 16) == u64_bytes(be_u64(bytes.subrange(0, 8))) + u32_bytes(
            be_u32(bytes.subrange(8, 12)),
        ) + u32_bytes(be_u32(bytes.subrange(12, 16))),
{
    lemma_be_u64(bytes.subrange(0, 8));
    lemma_be_u32(bytes.subrange(8, 12));
    lemma_be_u32(bytes.subrange(12, 16));
    assert(bytes.subrange(0, 16) =~= bytes.subrange(0, 8) + bytes.subrange(8, 12) + bytes.subrange(
        12,
        16,
    ));
}

/// Reads a datagram with the action and the length of an `announce`.
fn parse_announce(bytes: &[u8]) -> (parsed: Result<AnnounceRequest, RequestParseError>)
    requires
        bytes@.len() == ANNOUNCE_REQUEST_LENGTH,
        be_u32(bytes@.subrange(8, 12)) == 1,
    ensures
        match parsed {
            Ok(request) => request_error(bytes@) is None && announce_request_bytes(request)
                == bytes@,
            Err(error) => request_error(bytes@) == Some(error),
        },
{
    let code = read_u32(bytes, 80);
    if code > 3 {
        return Err(RequestParseError::UnknownEvent { event: code });
    }
    let request = AnnounceRequest {
        connection_id: read_u64(bytes, 0),
        transaction_id: read_u32(bytes, 12),
        info_hash: InfoHash(read_id(bytes, 16)),
        peer_id: PeerId(read_id(bytes, 36)),
        downloaded: read_u64(bytes, 56),
        left: read_u64(bytes, 64),
        uploaded: read_u64(bytes, 72),
        event: event_from_code(code),
        ip: read_u32(bytes, 84),
        key: read_u32(bytes, 88),
        num_want: read_i32(bytes, 92),
        port: read_u16(bytes, 96),
    };
    proof {
        let b = bytes@;
        lemma_sixteen(b);
        lemma_be_u64(b.subrange(56, 64));
        lemma_be_u64(b.subrange(64, 72));
        lemma_be_u64(b.subrange(72, 80));
        lemma_be_u32(b.subrange(80, 84));
        lemma_be_u32(b.subrange(84, 88));
        lemma_be_u32(b.subrange(88, 92));
        lemma_be_u32(b.subrange(92, 96));
        lemma_be_u16(b.subrange(96, 98));
        lemma_signed_round_trip(be_u32(b.subrange(92, 96)), 0);
        let head = b.subrange(0, 16);
        let tail = b.subrange(16, 36) + b.subrange(36, 56) + b.subrange(56, 64) + b.subrange(64, 72)
            + b.subrange(72, 80) + b.subrange(80, 84) + b.subrange(84, 88) + b.subrange(88, 92)
            + b.subrange(92, 96) + b.subrange(96, 98);
        assert(tail =~= b.subrange(16, 98));
        assert(head + b.subrange(16, 98) =~= b);
        assert(announce_request_bytes(request) =~= head + tail);
    }
    Ok(request)
}

/// Reads a datagram with the action of a `scrape`.
fn parse_scrape(bytes: &[u8]) -> (parsed: Result<ScrapeRequest, RequestParseError>)
    requires
        bytes@.len() >= 16,
        be_u32(bytes@.subrange(8, 12)) == 2,
    ensures
        match parsed {
            Ok(request) => request_error(bytes@) is None && scrape_request_bytes(request) == bytes@
                && request.info_hashes@.len() <= MAX_SCRAPE_TORRENTS,
            Err(error) => request_error(bytes@) == Some(error),
        },
{
    let rest = bytes.len() - 16;
    if rest % 20 != 0 {
        return Err(RequestParseError::BadLength);
    }
    let count = rest / 20;
    if count > MAX_SCRAPE_TORRENTS {
        return Err(RequestParseError::TooManyInfoHashes);
    }
    let mut info_hashes: Vec<InfoHash> = Vec::new();
    let mut i: usize = 0;
    while i < count
        invariant
            i <= count <= MAX_SCRAPE_TORRENTS,
            bytes@.len() == 16 + 20 * count,
            info_hashes@.len() == i,
            forall|j: int|
                0 <= j < i ==> (#[trigger] info_hashes@[j])@ == bytes@.subrange(
                    16 + 20 * j,
                    36 + 20 * j,
                ),
        decreases count - i,
    {
        info_hashes.push(InfoHash(read_id(bytes, 16 + 20 * i)));
        i += 1;
    }
    let request = ScrapeRequest {
        connection_id: read_u64(bytes, 0),
        transaction_id: read_u32(bytes, 12),
        info_hashes,
    };
    proof {
        let b = bytes@;
        lemma_sixteen(b);
        assert forall|k: int| 0 <= k < 20 * count implies info_hashes_bytes(request.info_hashes@)[k]
            == b[16 + k] by {
            let j = k / 20;
            assert(request.info_hashes@[j]@ == b.subrange(16 + 20 * j, 36 + 20 * j));
        }
        assert(info_hashes_bytes(request.info_hashes@) =~= b.subrange(16, b.len() as int));
        assert(b.subrange(0, 16) + b.subrange(16, b.len() as int) =~= b);
    }
    Ok(request)
}

/// Reads a datagram as a request.
///
/// The datagram is a request if it has the sixteen bytes that every request
/// begins with, an action that the protocol knows, and the length that goes
/// with the action; a `connect` must open with the protocol's number, an
/// `announce` name a known event, a `scrape` name no more info-hashes than a
/// datagram may hold. The request that is returned is the one whose bytes are
/// the datagram.
pub fn parse_request(bytes: &[u8]) -> (parsed: Result<Request, RequestParseError>)
    ensures
        match parsed {
            Ok(request) => request_error(bytes@) is None && request_bytes(request) == bytes@
                && request_valid(request),
            Err(error) => request_error(bytes@) == Some(error),
        },
{
    if bytes.len() < 16 {
        return Err(RequestParseError::TooShort);
    }
    let action = read_u32(bytes, 8);
    if action == 0 {
        if bytes.len() != 16 {
            return Err(RequestParseError::BadLength);
        }
        if read_u64(bytes, 0) != PROTOCOL_ID {
            return Err(RequestParseError::BadProtocolId);
        }
        let transaction_id = read_u32(bytes, 12);
        proof {
            lemma_sixteen(bytes@);
            assert(bytes@.subrange(0, 16) =~= bytes@);
        }
        Ok(Request::Connect { transaction_id })
    } else if action == 1 {
        if bytes.len() != ANNOUNCE_REQUEST_LENGTH {
            return Err(RequestParseError::BadLength);
        }
        match parse_announce(bytes) {
            Ok(request) => Ok(Request::Announce(request)),
            Err(error) => Err(error),
        }
    } else if action == 2 {
        match parse_scrape(bytes) {
            Ok(request) => Ok(Request::Scrape(request)),
            Err(error) => Err(error),
        }
    } else {
        Err(RequestParseError::UnknownAction { action })
    }
}

/// The bytes of a request.
pub fn serialize_request(request: &Request) -> (bytes: Vec<u8>)
    ensures
        bytes@ == request_bytes(*request),
{
    let mut bytes: Vec<u8> = Vec::new();
    match request {
        Request::Connect { transaction_id } => {
            push_u64(&mut bytes, PROTOCOL_ID);
            push_u32(&mut bytes, 0);
            push_u32(&mut bytes, *transaction_id);
            assert(bytes@ =~= request_bytes(*request));
        },
        Request::Announce(announce) => {
            push_u64(&mut bytes, announce.connection_id);
            push_u32(&mut bytes, 1);
            push_u32(&mut bytes, announce.transaction_id);
            push_bytes(&mut bytes, array_as_slice(&announce.info_hash.0));
            push_bytes(&mut bytes, array_as_slice(&announce.peer_id.0));
            push_u64(&mut bytes, announce.downloaded);
            push_u64(&mut bytes, announce.left);
            push_u64(&mut bytes, announce.uploaded);
            push_u32(&mut bytes, event_to_code(announce.event));
            push_u32(&mut bytes, announce.ip);
            push_u32(&mut bytes, announce.key);
            push_i32(&mut bytes, announce.num_want);
            push_u16(&mut bytes, announce.port);
            assert(bytes@ =~= request_bytes(*request));
        },
        Request::Scrape(scrape) => {
            push_u64(&mut bytes, scrape.connection_id);
            push_u32(&mut bytes, 2);
            push_u32(&mut bytes, scrape.transaction_id);
            let ghost head = bytes@;
            let mut i: usize = 0;
            while i < scrape.info_hashes.len()
                invariant
                    i <= scrape.info_hashes@.len(),
                    bytes@ == head + info_hashes_bytes(scrape.info_hashes@.subrange(0, i as int)),
                decreases scrape.info_hashes@.len() - i,
            {
                push_bytes(&mut bytes, array_as_slice(&scrape.info_hashes[i].0));
                proof {
                    let before = info_hashes_bytes(scrape.info_hashes@.subrange(0, i as int));
                    let after = info_hashes_bytes(scrape.info_hashes@.subrange(0, i + 1));
                    assert(after =~= before + scrape.info_hashes@[i as int]@);
                    assert(bytes@ =~= head + after);
                }
                i += 1;
            }
            assert(scrape.info_hashes@.subrange(0, i as int) =~= scrape.info_hashes@);
        },
    }
    bytes
}

/// A message that begins with a 64-bit number and two 32-bit numbers has
/// them in its first sixteen bytes.
proof fn lemma_header(first: u64, action: u32, transaction_id: u32, rest: Seq<u8>)
    ensures
        be_u64(
            (u64_bytes(first) + u32_bytes(action) + u32_bytes(transaction_id) + rest).subrange(0, 8),
        ) == first,
        be_u32(
            (u64_bytes(first) + u32_bytes(action) + u32_bytes(transaction_id) + rest).subrange(
                8,
                12,
            ),
        ) == action,
        be_u32(
            (u64_bytes(first) + u32_bytes(action) + u32_bytes(transaction_id) + rest).subrange(
                12,
                16,
            ),
        ) == transaction_id,
        (u64_bytes(first) + u32_bytes(action) + u32_bytes(transaction_id) + rest).len() == 16
            + rest.len(),
{
    lemma_u64_bytes(first);
    lemma_u32_bytes(action);
    lemma_u32_bytes(transaction_id);
    let bytes = u64_bytes(first) + u32_bytes(action) + u32_bytes(transaction_id) + rest;
    assert(bytes.subrange(0, 8) =~= u64_bytes(first));
    assert(bytes.subrange(8, 12) =~= u32_bytes(action));
    assert(bytes.subrange(12, 16) =~= u32_bytes(transaction_id));
}

/// The bytes of an `announce` are read as an `announce`.
proof fn lemma_serialized_announce_parses(announce: AnnounceRequest)
    ensures
        request_error(announce_request_bytes(announce)) is None,
{
    let bytes = announce_request_bytes(announce);
    let middle = announce.info_hash@ + announce.peer_id@ + u64_bytes(announce.downloaded)
        + u64_bytes(announce.left) + u64_bytes(announce.uploaded);
    let event = u32_bytes(event_code(announce.event));
    let end = u32_bytes(announce.ip) + u32_bytes(announce.key) + u32_bytes(
        unsigned(announce.num_want),
    ) + u16_bytes(announce.port);
    let rest = middle + event + end;
    lemma_u64_bytes(announce.connection_id);
    lemma_u32_bytes(1);
    lemma_u32_bytes(announce.transaction_id);
    lemma_u64_bytes(announce.downloaded);
    lemma_u64_bytes(announce.left);
    lemma_u64_bytes(announce.uploaded);
    lemma_u32_bytes(event_code(announce.event));
    lemma_u32_bytes(announce.ip);
    lemma_u32_bytes(announce.key);
    lemma_u32_bytes(unsigned(announce.num_want));
    lemma_u16_bytes(announce.port);
    assert(middle.len() == 64);
    assert(end.len() == 14);
    lemma_header(announce.connection_id, 1, announce.transaction_id, rest);
    assert(bytes =~= u64_bytes(announce.connection_id) + u32_bytes(1) + u32_bytes(
        announce.transaction_id,
    ) + rest);
    assert(bytes.subrange(80, 84) =~= event);
}

/// The bytes of a request that can stand on the wire are read as a request.
pub proof fn law_serialized_request_parses(request: Request)
    requires
        request_valid(request),
    ensures
        request_error(request_bytes(request)) is None,
{
    match request {
        Request::Connect { transaction_id } => {
            lemma_header(PROTOCOL_ID, 0, transaction_id, Seq::empty());
            assert(request_bytes(request) =~= u64_bytes(PROTOCOL_ID) + u32_bytes(0) + u32_bytes(
                transaction_id,
            ) + Seq::<u8>::empty());
        },
        Request::Announce(announce) => {
            lemma_serialized_announce_parses(announce);
        },
        Request::Scrape(scrape) => {
            lemma_header(
                scrape.connection_id,
                2,
                scrape.transaction_id,
                info_hashes_bytes(scrape.info_hashes@),
            );
        },
    }
}

/// Each field of an `announce` can be read from its bytes.
proof fn lemma_announce_fields(announce: AnnounceRequest)
    ensures
        announce_request_bytes(announce).len() == ANNOUNCE_REQUEST_LENGTH,
        be_u64(announce_request_bytes(announce).subrange(0, 8)) == announce.connection_id,
        be_u32(announce_request_bytes(announce).subrange(8, 12)) == 1,
        be_u32(announce_request_bytes(announce).subrange(12, 16)) == announce.transaction_id,
        announce_request_bytes(announce).subrange(16, 36) == announce.info_hash@,
        announce_request_bytes(announce).subrange(36, 56) == announce.peer_id@,
        be_u64(announce_request_bytes(announce).subrange(56, 64)) == announce.downloaded,
        be_u64(announce_request_bytes(announce).subrange(64, 72)) == announce.left,
        be_u64(announce_request_bytes(announce).subrange(72, 80)) == announce.uploaded,
        be_u32(announce_request_bytes(announce).subrange(80, 84)) == event_code(announce.event),
        be_u32(announce_request_bytes(announce).subrange(84, 88)) == announce.ip,
        be_u32(announce_request_bytes(announce).subrange(88, 92)) == announce.key,
        be_u32(announce_request_bytes(announce).subrange(92, 96)) == unsigned(announce.num_want),
        be_u16(announce_request_bytes(announce).subrange(96, 98)) == announce.port,
{
    let bytes = announce_request_bytes(announce);
    lemma_u64_bytes(announce.connection_id);
    lemma_u32_bytes(1);
    lemma_u32_bytes(announce.transaction_id);
    lemma_u64_bytes(announce.downloaded);
    lemma_u64_bytes(announce.left);
    lemma_u64_bytes(announce.uploaded);
    lemma_u32_bytes(event_code(announce.event));
    lemma_u32_bytes(announce.ip);
    lemma_u32_bytes(announce.key);
    lemma_u32_bytes(unsigned(announce.num_want));
    lemma_u16_bytes(announce.port);
    assert(bytes.subrange(0, 8) =~= u64_bytes(announce.connection_id));
    assert(bytes.subrange(8, 12) =~= u32_bytes(1));
    assert(bytes.subrange(12, 16) =~= u32_bytes(announce.transaction_id));
    assert(bytes.subrange(16, 36) =~= announce.info_hash@);
    assert(bytes.subrange(36, 56) =~= announce.peer_id@);
    assert(bytes.subrange(56, 64) =~= u64_bytes(announce.downloaded));
    assert(bytes.subrange(64, 72) =~= u64_bytes(announce.left));
    assert(bytes.subrange(72, 80) =~= u64_bytes(announce.uploaded));
    assert(bytes.subrange(80, 84) =~= u32_bytes(event_code(announce.event)));
    assert(bytes.subrange(84, 88) =~= u32_bytes(announce.ip));
    assert(bytes.subrange(88, 92) =~= u32_bytes(announce.key));
    assert(bytes.subrange(92, 96) =~= u32_bytes(unsigned(announce.num_want)));
    assert(bytes.subrange(96, 98) =~= u16_bytes(announce.port));
}

/// Two `announce` requests with the same bytes are the same.
proof fn lemma_announce_bytes_injective(a: AnnounceRequest, b: AnnounceRequest)
    requires
        announce_request_bytes(a) == announce_request_bytes(b),
    ensures
        a == b,
{
    lemma_announce_fields(a);
    lemma_announce_fields(b);
    lemma_signed_round_trip(0, a.num_want);
    lemma_signed_round_trip(0, b.num_want);
    assert(a.info_hash.0 =~= b.info_hash.0);
    assert(a.peer_id.0 =~= b.peer_id.0);
}

/// Two sequences of info-hashes with the same bytes are the same.
proof fn lemma_info_hashes_bytes_injective(a: Seq<InfoHash>, b: Seq<InfoHash>)
    requires
        info_hashes_bytes(a) == info_hashes_bytes(b),
    ensures
        a == b,
{
    assert(20 * a.len() == info_hashes_bytes(a).len());
    assert(20 * b.len() == info_hashes_bytes(b).len());
    assert forall|j: int| 0 <= j < a.len() implies a[j] == b[j] by {
        assert forall|k: int| 0 <= k < 20 implies a[j]@[k] == b[j]@[k] by {
            assert((20 * j + k) / 20 == j && (20 * j + k) % 20 == k);
            assert(info_hashes_bytes(a)[20 * j + k] == a[j]@[k]);
            assert(info_hashes_bytes(b)[20 * j + k] == b[j]@[k]);
        }
        assert(a[j]@.len() == 20 && b[j]@.len() == 20);
        assert(a[j]@ =~= b[j]@);
        assert(a[j].0 == b[j].0);
    }
    assert(a =~= b);
}

/// A request is determined by its bytes: reading the bytes of a request
/// gives that request and no other.
pub proof fn law_request_bytes_injective(a: Request, b: Request)
    requires
        request_bytes(a) == request_bytes(b),
    ensures
        same_request(a, b),
{
    let rest_a = match a {
        Request::Connect { .. } => Seq::<u8>::empty(),
        Request::Announce(announce) => announce_request_bytes(announce).subrange(16, 98),
        Request::Scrape(scrape) => info_hashes_bytes(scrape.info_hashes@),
    };
    let rest_b = match b {
        Request::Connect { .. } => Seq::<u8>::empty(),
        Request::Announce(announce) => announce_request_bytes(announce).subrange(16, 98),
        Request::Scrape(scrape) => info_hashes_bytes(scrape.info_hashes@),
    };
    match a {
        Request::Connect { transaction_id } => {
            lemma_header(PROTOCOL_ID, 0, transaction_id, Seq::empty());
            assert(request_bytes(a) =~= u64_bytes(PROTOCOL_ID) + u32_bytes(0) + u32_bytes(
                transaction_id,
            ) + Seq::<u8>::empty());
        },
        Request::Announce(announce) => {
            lemma_announce_fields(announce);
        },
        Request::Scrape(scrape) => {
            lemma_header(scrape.connection_id, 2, scrape.transaction_id, rest_a);
        },
    }
    match b {
        Request::Connect { transaction_id } => {
            lemma_header(PROTOCOL_ID, 0, transaction_id, Seq::empty());
            assert(request_bytes(b) =~= u64_bytes(PROTOCOL_ID) + u32_bytes(0) + u32_bytes(
                transaction_id,
            ) + Seq::<u8>::empty());
        },
        Request::Announce(announce) => {
            lemma_announce_fields(announce);
        },
        Request::Scrape(scrape) => {
            lemma_header(scrape.connection_id, 2, scrape.transaction_id, rest_b);
        },
    }
    match (a, b) {
        (Request::Announce(x), Request::Announce(y)) => {
            lemma_announce_bytes_injective(x, y);
        },
        (Request::Scrape(x), Request::Scrape(y)) => {
            let bytes = request_bytes(a);
            assert(rest_a =~= bytes.subrange(16, bytes.len() as int));
            assert(rest_b =~= bytes.subrange(16, bytes.len() as int));
            lemma_info_hashes_bytes_injective(x.info_hashes@, y.info_hashes@);
        },
        _ => {},
    }
}

/// The first number in the bytes of an `announce` or a `scrape` is its
/// connection id, and its action is not that of a `connect`.
pub proof fn lemma_request_head(request: Request)
    ensures
        request matches Request::Announce(announce) ==> be_u64(
            request_bytes(request).subrange(0, 8),
        ) == announce.connection_id && be_u32(request_bytes(request).subrange(8, 12)) == 1,
        request matches Request::Scrape(scrape) ==> be_u64(request_bytes(request).subrange(0, 8))
            == scrape.connection_id && be_u32(request_bytes(request).subrange(8, 12)) == 2,
{
    match request {
        Request::Connect { .. } => {},
        Request::Announce(announce) => {
            lemma_announce_fields(announce);
        },
        Request::Scrape(scrape) => {
            lemma_header(
                scrape.connection_id,
                2,
                scrape.transaction_id,
                info_hashes_bytes(scrape.info_hashes@),
            );
        },
    }
}

} // verus!
