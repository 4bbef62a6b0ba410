use aquatic_tracker::be::{
    push_bytes, push_i32, push_u16, push_u32, push_u64, read_array, read_i32, read_id, read_u16,
    read_u32, read_u64,
};
use aquatic_tracker::ids::{InfoHash, PeerId};
use aquatic_tracker::peer::{AnnounceEvent, IpAddress, IpFamily, PeerAddress};
use aquatic_tracker::protocol::request::{
    parse_request, serialize_request, AnnounceRequest, Request, RequestParseError, ScrapeRequest,
    ANNOUNCE_REQUEST_LENGTH, MAX_SCRAPE_TORRENTS, PROTOCOL_ID,
};
use aquatic_tracker::protocol::response::{
    parse_response, serialize_response, AnnounceResponse, Response, ResponseParseError,
    ScrapeResponse, ScrapeStatistics,
};

fn announce() -> AnnounceRequest {
    AnnounceRequest {
        connection_id: 0x0102030405060708,
        transaction_id: 0xDEADBEEF,
        info_hash: InfoHash([0x11; 20]),
        peer_id: PeerId([0xAA; 20]),
        downloaded: 1,
        left: 0x0000_0100_0000_0002,
        uploaded: u64::MAX,
        event: AnnounceEvent::Started,
        ip: 0,
        key: 0xCAFEBABE,
        num_want: 50,
        port: 6881,
    }
}

fn announce_bytes() -> Vec<u8> {
    let mut bytes = vec![1, 2, 3, 4, 5, 6, 7, 8, 0, 0, 0, 1, 0xDE, 0xAD, 0xBE, 0xEF];
    bytes.extend_from_slice(&[0x11; 20]);
    bytes.extend_from_slice(&[0xAA; 20]);
    bytes.extend_from_slice(&[0, 0, 0, 0, 0, 0, 0, 1]);
    bytes.extend_from_slice(&[0, 0, 1, 0, 0, 0, 0, 2]);
    bytes.extend_from_slice(&[0xFF; 8]);
    bytes.extend_from_slice(&[0, 0, 0, 2]);
    bytes.extend_from_slice(&[0, 0, 0, 0]);
    bytes.extend_from_slice(&[0xCA, 0xFE, 0xBA, 0xBE]);
    bytes.extend_from_slice(&[0, 0, 0, 50]);
    bytes.extend_from_slice(&[0x1A, 0xE1]);
    bytes
}

#[test]
fn numbers_in_network_order() {
    let mut out = vec![0xEE];
    push_u16(&mut out, 0x1234);
    push_u32(&mut out, 0x89ABCDEF);
    push_u64(&mut out, 0x0102030405060708);
    push_i32(&mut out, -1);
    push_i32(&mut out, -2147483648);
    push_i32(&mut out, 2147483647);
    push_bytes(&mut out, &[9, 8]);
    assert_eq!(
        out,
        vec![
            0xEE, 0x12, 0x34, 0x89, 0xAB, 0xCD, 0xEF, 1, 2, 3, 4, 5, 6, 7, 8, 0xFF, 0xFF, 0xFF,
            0xFF, 0x80, 0, 0, 0, 0x7F, 0xFF, 0xFF, 0xFF, 9, 8
        ]
    );
    assert_eq!(read_u16(&out, 1), 0x1234);
    assert_eq!(read_u32(&out, 3), 0x89ABCDEF);
    assert_eq!(read_u64(&out, 7), 0x0102030405060708);
    assert_eq!(read_i32(&out, 15), -1);
    assert_eq!(read_i32(&out, 19), -2147483648);
    assert_eq!(read_i32(&out, 23), 2147483647);
    assert_eq!(read_i32(&out, 7), 0x01020304);
    assert_eq!(read_array::<3>(&out, 26), [0xFF, 9, 8]);
    let twenty: Vec<u8> = (0..30u8).collect();
    let id = read_id(&twenty, 5);
    assert_eq!(id.to_vec(), (5..25u8).collect::<Vec<u8>>());
}

#[test]
fn connect_request_on_the_wire() {
    assert_eq!(PROTOCOL_ID, 0x41727101980);
    let bytes = [0x00, 0x00, 0x04, 0x17, 0x27, 0x10, 0x19, 0x80, 0, 0, 0, 0, 0xDE, 0xAD, 0xBE, 0xEF];
    assert_eq!(parse_request(&bytes), Ok(Request::Connect { transaction_id: 0xDEADBEEF }));
    assert_eq!(serialize_request(&Request::Connect { transaction_id: 0xDEADBEEF }), bytes.to_vec());
}

#[test]
fn announce_request_on_the_wire() {
    assert_eq!(ANNOUNCE_REQUEST_LENGTH, 98);
    let bytes = announce_bytes();
    assert_eq!(bytes.len(), 98);
    assert_eq!(parse_request(&bytes), Ok(Request::Announce(announce())));
    assert_eq!(serialize_request(&Request::Announce(announce())), bytes);
}

#[test]
fn announce_events_and_signed_num_want() {
    let events = [
        (0u8, AnnounceEvent::Update),
        (1, AnnounceEvent::Completed),
        (2, AnnounceEvent::Started),
        (3, AnnounceEvent::Stopped),
    ];
    for (code, event) in events {
        let mut bytes = announce_bytes();
        bytes[83] = code;
        bytes[92..96].copy_from_slice(&[0xFF, 0xFF, 0xFF, 0xFF]);
        let expected = AnnounceRequest { event, num_want: -1, ..announce() };
        assert_eq!(parse_request(&bytes), Ok(Request::Announce(expected)));
        assert_eq!(serialize_request(&Request::Announce(expected)), bytes);
    }
}

#[test]
fn scrape_request_on_the_wire() {
    let mut bytes = vec![1, 2, 3, 4, 5, 6, 7, 8, 0, 0, 0, 2, 0, 0, 0, 9];
    let none = ScrapeRequest {
        connection_id: 0x0102030405060708,
        transaction_id: 9,
        info_hashes: vec![],
    };
    assert_eq!(parse_request(&bytes), Ok(Request::Scrape(none.clone())));
    assert_eq!(serialize_request(&Request::Scrape(none)), bytes);
    let mut hashes = Vec::new();
    for n in 0..MAX_SCRAPE_TORRENTS {
        let mut hash = [n as u8; 20];
        hash[19] = 0xF0;
        bytes.extend_from_slice(&hash);
        hashes.push(InfoHash(hash));
    }
    assert_eq!(MAX_SCRAPE_TORRENTS, 74);
    let full = ScrapeRequest {
        connection_id: 0x0102030405060708,
        transaction_id: 9,
        info_hashes: hashes,
    };
    assert_eq!(parse_request(&bytes), Ok(Request::Scrape(full.clone())));
    assert_eq!(serialize_request(&Request::Scrape(full)), bytes);
}

#[test]
fn datagrams_that_are_no_requests() {
    assert_eq!(parse_request(&[]), Err(RequestParseError::TooShort));
    assert_eq!(parse_request(&[0; 15]), Err(RequestParseError::TooShort));
    let connect = [0x00, 0x00, 0x04, 0x17, 0x27, 0x10, 0x19, 0x80, 0, 0, 0, 0, 0, 0, 0, 1];
    let mut long = connect.to_vec();
    long.push(0);
    assert_eq!(parse_request(&long), Err(RequestParseError::BadLength));
    let mut wrong = connect;
    wrong[7] = 0x81;
    assert_eq!(parse_request(&wrong), Err(RequestParseError::BadProtocolId));
    let mut action = connect;
    action[11] = 3;
    assert_eq!(parse_request(&action), Err(RequestParseError::UnknownAction { action: 3 }));
    action[8] = 1;
    assert_eq!(
        parse_request(&action),
        Err(RequestParseError::UnknownAction { action: 0x01000003 })
    );
    let mut short = announce_bytes();
    short.pop();
    assert_eq!(parse_request(&short), Err(RequestParseError::BadLength));
    let mut extended = announce_bytes();
    extended.push(0);
    assert_eq!(parse_request(&extended), Err(RequestParseError::BadLength));
    let mut event = announce_bytes();
    event[83] = 4;
    assert_eq!(parse_request(&event), Err(RequestParseError::UnknownEvent { event: 4 }));
    event[80] = 0x80;
    assert_eq!(parse_request(&event), Err(RequestParseError::UnknownEvent { event: 0x80000004 }));
    let mut scrape = vec![1, 2, 3, 4, 5, 6, 7, 8, 0, 0, 0, 2, 0, 0, 0, 9];
    scrape.extend_from_slice(&[0; 19]);
    assert_eq!(parse_request(&scrape), Err(RequestParseError::BadLength));
    scrape.extend_from_slice(&[0; 20 * 74 + 1]);
    assert_eq!(parse_request(&scrape), Err(RequestParseError::TooManyInfoHashes));
}

#[test]
fn connect_response_on_the_wire() {
    let response = Response::Connect { transaction_id: 0xDEADBEEF, connection_id: 0x0102030405060708 };
    let bytes = vec![0, 0, 0, 0, 0xDE, 0xAD, 0xBE, 0xEF, 1, 2, 3, 4, 5, 6, 7, 8];
    assert_eq!(serialize_response(&response), bytes);
    assert_eq!(parse_response(&bytes, IpFamily::V4), Ok(response.clone()));
    assert_eq!(parse_response(&bytes, IpFamily::V6), Ok(response));
}

#[test]
fn announce_response_on_the_wire() {
    let v4 = Response::Announce(AnnounceResponse {
        transaction_id: 7,
        interval: 1800,
        leechers: 3,
        seeders: 0x01000000,
        peers: vec![
            PeerAddress { ip: IpAddress::V4([10, 0, 0, 1]), port: 6881 },
            PeerAddress { ip: IpAddress::V4([192, 168, 1, 2]), port: 80 },
        ],
    });
    let bytes = vec![
        0, 0, 0, 1, 0, 0, 0, 7, 0, 0, 7, 8, 0, 0, 0, 3, 1, 0, 0, 0, 10, 0, 0, 1, 0x1A, 0xE1, 192,
        168, 1, 2, 0, 80,
    ];
    assert_eq!(serialize_response(&v4), bytes);
    assert_eq!(parse_response(&bytes, IpFamily::V4), Ok(v4));
    assert_eq!(parse_response(&bytes, IpFamily::V6), Err(ResponseParseError::BadLength));

    let mut octets = [0u8; 16];
    octets[0] = 0xFE;
    octets[15] = 1;
    let v6 = Response::Announce(AnnounceResponse {
        transaction_id: 7,
        interval: 1800,
        leechers: 3,
        seeders: 2,
        peers: vec![PeerAddress { ip: IpAddress::V6(octets), port: 258 }],
    });
    let mut bytes = vec![0, 0, 0, 1, 0, 0, 0, 7, 0, 0, 7, 8, 0, 0, 0, 3, 0, 0, 0, 2];
    bytes.extend_from_slice(&octets);
    bytes.extend_from_slice(&[1, 2]);
    assert_eq!(serialize_response(&v6), bytes);
    assert_eq!(parse_response(&bytes, IpFamily::V6), Ok(v6));
    // the same bytes hold three IPv4 peers
    assert!(matches!(
        parse_response(&bytes, IpFamily::V4),
        Ok(Response::Announce(AnnounceResponse { peers, .. })) if peers.len() == 3
    ));

    let empty = Response::Announce(AnnounceResponse {
        transaction_id: 7,
        interval: 1800,
        leechers: 1,
        seeders: 0,
        peers: vec![],
    });
    let bytes = serialize_response(&empty);
    assert_eq!(bytes.len(), 20);
    assert_eq!(parse_response(&bytes, IpFamily::V4), Ok(empty.clone()));
    assert_eq!(parse_response(&bytes, IpFamily::V6), Ok(empty));
}

#[test]
fn scrape_response_on_the_wire() {
    let response = Response::Scrape(ScrapeResponse {
        transaction_id: 0x01020304,
        statistics: vec![
            ScrapeStatistics { seeders: 1, completed: 2, leechers: 3 },
            ScrapeStatistics { seeders: u32::MAX, completed: 0, leechers: 0x0A0B0C0D },
        ],
    });
    let bytes = vec![
        0, 0, 0, 2, 1, 2, 3, 4, 0, 0, 0, 1, 0, 0, 0, 2, 0, 0, 0, 3, 0xFF, 0xFF, 0xFF, 0xFF, 0, 0,
        0, 0, 0x0A, 0x0B, 0x0C, 0x0D,
    ];
    assert_eq!(serialize_response(&response), bytes);
    assert_eq!(parse_response(&bytes, IpFamily::V4), Ok(response));
    let none = Response::Scrape(ScrapeResponse { transaction_id: 5, statistics: vec![] });
    assert_eq!(serialize_response(&none), vec![0, 0, 0, 2, 0, 0, 0, 5]);
    assert_eq!(parse_response(&[0, 0, 0, 2, 0, 0, 0, 5], IpFamily::V6), Ok(none));
}

#[test]
fn error_response_on_the_wire() {
    let response = Response::Error { transaction_id: 5, message: b"no such torrent".to_vec() };
    let mut bytes = vec![0, 0, 0, 3, 0, 0, 0, 5];
    bytes.extend_from_slice(b"no such torrent");
    assert_eq!(serialize_response(&response), bytes);
    assert_eq!(parse_response(&bytes, IpFamily::V4), Ok(response));
    let silent = Response::Error { transaction_id: 5, message: vec![] };
    assert_eq!(parse_response(&[0, 0, 0, 3, 0, 0, 0, 5], IpFamily::V4), Ok(silent));
}

#[test]
fn datagrams_that_are_no_responses() {
    assert_eq!(parse_response(&[], IpFamily::V4), Err(ResponseParseError::TooShort));
    assert_eq!(parse_response(&[0; 7], IpFamily::V4), Err(ResponseParseError::TooShort));
    assert_eq!(parse_response(&[0; 8], IpFamily::V4), Err(ResponseParseError::BadLength));
    assert_eq!(parse_response(&[0; 17], IpFamily::V4), Err(ResponseParseError::BadLength));
    let mut announce = vec![0, 0, 0, 1, 0, 0, 0, 7];
    assert_eq!(parse_response(&announce, IpFamily::V4), Err(ResponseParseError::BadLength));
    announce.extend_from_slice(&[0; 13]);
    assert_eq!(parse_response(&announce, IpFamily::V4), Err(ResponseParseError::BadLength));
    let mut scrape = vec![0, 0, 0, 2, 0, 0, 0, 7];
    scrape.extend_from_slice(&[0; 11]);
    assert_eq!(parse_response(&scrape, IpFamily::V4), Err(ResponseParseError::BadLength));
    assert_eq!(
        parse_response(&[0, 0, 0, 4, 0, 0, 0, 7], IpFamily::V4),
        Err(ResponseParseError::UnknownAction { action: 4 })
    );
}

#[test]
fn requests_and_responses_round_trip() {
    let requests = vec![
        Request::Connect { transaction_id: 0 },
        Request::Connect { transaction_id: u32::MAX },
        Request::Announce(announce()),
        Request::Announce(AnnounceRequest {
            num_want: i32::MIN,
            event: AnnounceEvent::Stopped,
            ip: 0x7F000001,
            port: u16::MAX,
            ..announce()
        }),
        Request::Scrape(ScrapeRequest {
            connection_id: PROTOCOL_ID,
            transaction_id: 1,
            info_hashes: vec![InfoHash([1; 20]), InfoHash([2; 20]), InfoHash([1; 20])],
        }),
    ];
    for request in requests {
        let bytes = serialize_request(&request);
        assert_eq!(parse_request(&bytes), Ok(request));
        let again = parse_request(&bytes).map(|parsed| serialize_request(&parsed));
        assert_eq!(again, Ok(bytes));
    }
}
