use aquatic_tracker::access_list::{AccessList, AccessListConfig, AccessListMode};
use aquatic_tracker::config::Config;
use aquatic_tracker::connection_id::ConnectionValidator;
use aquatic_tracker::ids::{InfoHash, PeerId};
use aquatic_tracker::peer::{AnnounceEvent, IpAddress, IpFamily, PeerAddress};
use aquatic_tracker::protocol::request::{
    serialize_request, AnnounceRequest, Request, RequestParseError, ScrapeRequest,
};
use aquatic_tracker::protocol::response::{
    parse_response, serialize_response, AnnounceResponse, Response, ScrapeResponse,
    ScrapeStatistics,
};
use aquatic_tracker::request_worker::{
    handle_announce, handle_request, handle_scrape, limit_of, to_wire_count, valid_until,
    ConnectedRequest, ConnectedResponse,
};
use aquatic_tracker::socket_worker::{handle_datagram, merge_scrape, DatagramAction, DropReason};
use aquatic_tracker::swarm::SwarmShard;

fn client() -> IpAddress {
    IpAddress::V4([203, 0, 113, 5])
}

fn client6() -> IpAddress {
    let mut octets = [0u8; 16];
    octets[0] = 0x20;
    octets[1] = 0x01;
    octets[15] = 5;
    IpAddress::V6(octets)
}

fn announce(connection_id: u64, info_hash: u8, peer_id: u8, event: AnnounceEvent) -> AnnounceRequest {
    AnnounceRequest {
        connection_id,
        transaction_id: 0x1234,
        info_hash: InfoHash([info_hash; 20]),
        peer_id: PeerId([peer_id; 20]),
        downloaded: 0,
        left: 1000,
        uploaded: 0,
        event,
        ip: 0,
        key: 0,
        num_want: 50,
        port: 6881,
    }
}

fn scrape(connection_id: u64, info_hash: u8) -> ScrapeRequest {
    ScrapeRequest {
        connection_id,
        transaction_id: 0x5678,
        info_hashes: vec![InfoHash([info_hash; 20])],
    }
}

#[test]
fn connect_announce_scrape_on_an_empty_tracker() {
    let validator = ConnectionValidator::new([3; 32]);
    let config = Config::default();
    let access_list = AccessList::default();
    let mut shard = SwarmShard::new();

    let connect = [0x00, 0x00, 0x04, 0x17, 0x27, 0x10, 0x19, 0x80, 0, 0, 0, 0, 0xDE, 0xAD, 0xBE, 0xEF];
    let connection_id = match handle_datagram(&validator, &connect, &client(), 1) {
        DatagramAction::Respond(response) => {
            let bytes = serialize_response(&response);
            assert_eq!(bytes.len(), 16);
            assert_eq!(&bytes[..8], &[0, 0, 0, 0, 0xDE, 0xAD, 0xBE, 0xEF]);
            match response {
                Response::Connect { transaction_id, connection_id } => {
                    assert_eq!(transaction_id, 0xDEADBEEF);
                    assert_eq!(connection_id, validator.issue(&client()).0);
                    connection_id
                }
                other => panic!("not a connect response: {:?}", other),
            }
        }
        other => panic!("no response: {:?}", other),
    };

    let request = AnnounceRequest {
        event: AnnounceEvent::Started,
        ..announce(connection_id, 0x11, 0xAA, AnnounceEvent::Started)
    };
    let datagram = serialize_request(&Request::Announce(request));
    let forwarded = match handle_datagram(&validator, &datagram, &client(), 1) {
        DatagramAction::ForwardAnnounce { worker, announce } => {
            assert_eq!(worker, 0);
            announce
        }
        other => panic!("not forwarded: {:?}", other),
    };
    assert_eq!(forwarded, request);
    let response = handle_announce(&mut shard, &access_list, &config, &forwarded, client(), 100, 3);
    assert_eq!(
        response,
        AnnounceResponse {
            transaction_id: 0x1234,
            interval: 120,
            leechers: 1,
            seeders: 0,
            peers: vec![],
        }
    );
    let bytes = serialize_response(&Response::Announce(response.clone()));
    assert_eq!(parse_response(&bytes, IpFamily::V4), Ok(Response::Announce(response)));

    let datagram = serialize_request(&Request::Scrape(scrape(connection_id, 0x11)));
    match handle_datagram(&validator, &datagram, &client(), 1) {
        DatagramAction::ForwardScrape { owners, scrape } => {
            assert_eq!(owners, vec![0]);
            let response = handle_scrape(&shard, IpFamily::V4, &scrape, config.max_scrape_torrents);
            assert_eq!(
                response,
                ScrapeResponse {
                    transaction_id: 0x5678,
                    statistics: vec![ScrapeStatistics { seeders: 0, completed: 0, leechers: 1 }],
                }
            );
        }
        other => panic!("not forwarded: {:?}", other),
    }
}

#[test]
fn a_wrong_connection_id_gets_no_answer() {
    let validator = ConnectionValidator::new([3; 32]);
    let good = validator.issue(&client()).0;
    let request = announce(good ^ 0x10, 0x11, 0xAA, AnnounceEvent::Started);
    let datagram = serialize_request(&Request::Announce(request));
    assert!(matches!(
        handle_datagram(&validator, &datagram, &client(), 4),
        DatagramAction::Drop(DropReason::InvalidConnectionId)
    ));
    // an id that was issued to another address
    let request = announce(good, 0x11, 0xAA, AnnounceEvent::Started);
    let datagram = serialize_request(&Request::Announce(request));
    assert!(matches!(
        handle_datagram(&validator, &datagram, &client6(), 4),
        DatagramAction::Drop(DropReason::InvalidConnectionId)
    ));
    assert!(matches!(
        handle_datagram(&validator, &datagram, &client(), 4),
        DatagramAction::ForwardAnnounce { worker: 1, .. }
    ));
    let datagram = serialize_request(&Request::Scrape(scrape(0, 0x11)));
    assert!(matches!(
        handle_datagram(&validator, &datagram, &client(), 4),
        DatagramAction::Drop(DropReason::InvalidConnectionId)
    ));
    assert!(matches!(
        handle_datagram(&validator, &datagram[..15], &client(), 4),
        DatagramAction::Drop(DropReason::Malformed(RequestParseError::TooShort))
    ));
}

#[test]
fn the_second_peer_is_told_of_the_first() {
    let config = Config::default();
    let access_list = AccessList::default();
    let mut shard = SwarmShard::new();
    let first = announce(0, 0x11, 0xAA, AnnounceEvent::Started);
    let second = AnnounceRequest { port: 7000, ..announce(0, 0x11, 0xBB, AnnounceEvent::Started) };
    let third = announce(0, 0x11, 0xCC, AnnounceEvent::Started);
    let a = handle_announce(&mut shard, &access_list, &config, &first, client(), 100, 0);
    assert!(a.peers.is_empty());
    let other = IpAddress::V4([198, 51, 100, 7]);
    let b = handle_announce(&mut shard, &access_list, &config, &second, other, 100, 0);
    assert_eq!(b.peers, vec![PeerAddress { ip: client(), port: 6881 }]);
    assert_eq!((b.leechers, b.seeders), (2, 0));
    let c = handle_announce(&mut shard, &access_list, &config, &third, client6(), 100, 0);
    assert!(c.peers.is_empty());
    assert_eq!((c.leechers, c.seeders), (1, 0));
    // the first peer announces again and is told of the second
    let a = handle_announce(&mut shard, &access_list, &config, &first, client(), 110, 1);
    assert_eq!(a.peers, vec![PeerAddress { ip: other, port: 7000 }]);
    assert_eq!((a.leechers, a.seeders), (2, 0));
}

#[test]
fn a_torrent_that_is_not_listed_is_not_recorded() {
    let mut config = Config::default();
    config.access_list = AccessListConfig { mode: AccessListMode::Require, path: String::new() };
    let mut access_list = AccessList::default();
    let listed = vec!["aaaaaaaaaaaaaaaaaaaaaaaaaaaaaaaaaaaaaaaa".to_string()];
    assert_eq!(access_list.update_from_lines(&listed), Ok(()));
    let mut shard = SwarmShard::new();
    let on_b = announce(0, 0xBB, 1, AnnounceEvent::Started);
    let response = handle_announce(&mut shard, &access_list, &config, &on_b, client(), 100, 0);
    assert_eq!(
        response,
        AnnounceResponse {
            transaction_id: 0x1234,
            interval: 120,
            leechers: 0,
            seeders: 0,
            peers: vec![],
        }
    );
    let response = handle_scrape(&shard, IpFamily::V4, &scrape(0, 0xBB), 74);
    assert_eq!(
        response.statistics,
        vec![ScrapeStatistics { seeders: 0, completed: 0, leechers: 0 }]
    );
    let on_a = announce(0, 0xAA, 1, AnnounceEvent::Started);
    let response = handle_announce(&mut shard, &access_list, &config, &on_a, client(), 100, 0);
    assert_eq!((response.leechers, response.seeders), (1, 0));
    // the same list forbids what it required
    config.access_list.mode = AccessListMode::Forbid;
    let again = announce(0, 0xAA, 2, AnnounceEvent::Started);
    let response = handle_announce(&mut shard, &access_list, &config, &again, client(), 100, 0);
    assert_eq!((response.leechers, response.seeders, response.peers.len()), (0, 0, 0));
    let response = handle_announce(&mut shard, &access_list, &config, &on_b, client(), 100, 0);
    assert_eq!((response.leechers, response.seeders), (1, 0));
}

#[test]
fn a_peer_that_stays_silent_is_cleaned_away() {
    let config = Config::default();
    let access_list = AccessList::default();
    let mut shard = SwarmShard::new();
    let request = announce(0, 0x11, 0xAA, AnnounceEvent::Started);
    let response = handle_announce(&mut shard, &access_list, &config, &request, client(), 1000, 0);
    let interval = response.interval as u64;
    assert_eq!(interval, 120);
    shard.clean(1000 + 2 * interval);
    let found = handle_scrape(&shard, IpFamily::V4, &scrape(0, 0x11), 74);
    assert_eq!(found.statistics, vec![ScrapeStatistics { seeders: 0, completed: 0, leechers: 1 }]);
    shard.clean(1000 + 2 * interval + 1);
    let found = handle_scrape(&shard, IpFamily::V4, &scrape(0, 0x11), 74);
    assert_eq!(found.statistics, vec![ScrapeStatistics { seeders: 0, completed: 0, leechers: 0 }]);
}

#[test]
fn seeders_are_those_with_nothing_left_or_completed() {
    let config = Config::default();
    let access_list = AccessList::default();
    let mut shard = SwarmShard::new();
    let nothing_left = AnnounceRequest { left: 0, ..announce(0, 0x11, 1, AnnounceEvent::Started) };
    let completed = announce(0, 0x11, 2, AnnounceEvent::Completed);
    let leecher = announce(0, 0x11, 3, AnnounceEvent::Update);
    handle_announce(&mut shard, &access_list, &config, &nothing_left, client(), 100, 0);
    handle_announce(&mut shard, &access_list, &config, &completed, client(), 100, 0);
    let response = handle_announce(&mut shard, &access_list, &config, &leecher, client(), 100, 0);
    assert_eq!((response.seeders, response.leechers, response.peers.len()), (2, 1, 2));
    let found = handle_scrape(&shard, IpFamily::V4, &scrape(0, 0x11), 74);
    assert_eq!(found.statistics, vec![ScrapeStatistics { seeders: 2, completed: 1, leechers: 1 }]);
    let stopped = announce(0, 0x11, 2, AnnounceEvent::Stopped);
    let response = handle_announce(&mut shard, &access_list, &config, &stopped, client(), 100, 0);
    assert_eq!((response.seeders, response.leechers, response.peers.len()), (1, 1, 2));
}

#[test]
fn the_answer_is_as_long_as_asked_and_allowed() {
    let mut config = Config::default();
    config.max_peers = 3;
    let access_list = AccessList::default();
    let mut shard = SwarmShard::new();
    for id in 1..=6u8 {
        let request = announce(0, 0x11, id, AnnounceEvent::Started);
        handle_announce(&mut shard, &access_list, &config, &request, client(), 100, 0);
    }
    for (num_want, expected) in [(-1, 3usize), (0, 3), (1, 1), (2, 2), (3, 3), (50, 3), (i32::MAX, 3)] {
        let request = AnnounceRequest { num_want, ..announce(0, 0x11, 9, AnnounceEvent::Update) };
        let response = handle_announce(&mut shard, &access_list, &config, &request, client(), 100, 4);
        assert_eq!(response.peers.len(), expected);
    }
    assert_eq!(limit_of(-1, 255), 255);
    assert_eq!(limit_of(i32::MIN, 255), 255);
    assert_eq!(limit_of(0, 255), 255);
    assert_eq!(limit_of(50, 255), 50);
    assert_eq!(limit_of(255, 255), 255);
    assert_eq!(limit_of(256, 255), 255);
    assert_eq!(limit_of(7, 0), 0);
}

#[test]
fn deadlines_and_counts() {
    assert_eq!(valid_until(1000, 120, 2), 1240);
    assert_eq!(valid_until(0, 0, 5), 0);
    assert_eq!(valid_until(5, u32::MAX, u32::MAX), 5 + (u32::MAX as u64) * (u32::MAX as u64));
    assert_eq!(valid_until(u64::MAX - 239, 120, 2), u64::MAX);
    assert_eq!(valid_until(u64::MAX - 240, 120, 2), u64::MAX);
    assert_eq!(valid_until(u64::MAX - 241, 120, 2), u64::MAX - 1);
    assert_eq!(to_wire_count(0), 0);
    assert_eq!(to_wire_count(77), 77);
    assert_eq!(to_wire_count(u32::MAX as usize), u32::MAX);
    assert_eq!(to_wire_count(usize::MAX), u32::MAX);
}

#[test]
fn a_scrape_names_many_torrents() {
    let config = Config::default();
    let access_list = AccessList::default();
    let mut shard = SwarmShard::new();
    for id in 1..=3u8 {
        let request = announce(0, 0x22, id, AnnounceEvent::Started);
        handle_announce(&mut shard, &access_list, &config, &request, client(), 100, 0);
    }
    let request = ScrapeRequest {
        connection_id: 0,
        transaction_id: 1,
        info_hashes: vec![InfoHash([0x11; 20]), InfoHash([0x22; 20]), InfoHash([0x33; 20])],
    };
    let zeros = ScrapeStatistics { seeders: 0, completed: 0, leechers: 0 };
    let three = ScrapeStatistics { seeders: 0, completed: 0, leechers: 3 };
    assert_eq!(handle_scrape(&shard, IpFamily::V4, &request, 74).statistics, vec![zeros, three, zeros]);
    assert_eq!(handle_scrape(&shard, IpFamily::V4, &request, 2).statistics, vec![zeros, three]);
    assert_eq!(handle_scrape(&shard, IpFamily::V4, &request, 0).statistics, vec![]);
    assert_eq!(handle_scrape(&shard, IpFamily::V6, &request, 74).statistics, vec![zeros, zeros, zeros]);
}

#[test]
fn answers_to_a_scrape_are_put_together() {
    let a = ScrapeStatistics { seeders: 1, completed: 1, leechers: 1 };
    let b = ScrapeStatistics { seeders: 2, completed: 2, leechers: 2 };
    let c = ScrapeStatistics { seeders: 3, completed: 3, leechers: 3 };
    let z = ScrapeStatistics { seeders: 0, completed: 0, leechers: 0 };
    let answers = vec![vec![a, z, z], vec![z, b, c], vec![]];
    assert_eq!(merge_scrape(&vec![0, 1, 1], &answers), Some(vec![a, b, c]));
    assert_eq!(merge_scrape(&vec![1, 0, 0], &answers), Some(vec![z, z, z]));
    assert_eq!(merge_scrape(&vec![], &answers), Some(vec![]));
    assert_eq!(merge_scrape(&vec![0, 2, 1], &answers), None);
    assert_eq!(merge_scrape(&vec![0, 3, 1], &answers), None);
    assert_eq!(merge_scrape(&vec![0, 1, 1, 0], &answers), None);
}

#[test]
fn a_request_worker_answers_what_it_is_asked() {
    let config = Config::default();
    let access_list = AccessList::default();
    let mut shard = SwarmShard::new();
    let asked = ConnectedRequest::Announce(announce(0, 0x11, 1, AnnounceEvent::Started));
    assert_eq!(
        handle_request(&mut shard, &access_list, &config, &asked, client(), 100, 0),
        ConnectedResponse::Announce(AnnounceResponse {
            transaction_id: 0x1234,
            interval: 120,
            leechers: 1,
            seeders: 0,
            peers: vec![],
        })
    );
    let asked = ConnectedRequest::Scrape(scrape(0, 0x11));
    assert_eq!(
        handle_request(&mut shard, &access_list, &config, &asked, client(), 100, 0),
        ConnectedResponse::Scrape(ScrapeResponse {
            transaction_id: 0x5678,
            statistics: vec![ScrapeStatistics { seeders: 0, completed: 0, leechers: 1 }],
        })
    );
    assert_eq!(
        handle_request(&mut shard, &access_list, &config, &asked, client6(), 100, 0),
        ConnectedResponse::Scrape(ScrapeResponse {
            transaction_id: 0x5678,
            statistics: vec![ScrapeStatistics { seeders: 0, completed: 0, leechers: 0 }],
        })
    );
}
