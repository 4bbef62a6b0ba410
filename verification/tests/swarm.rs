use aquatic_tracker::ids::{InfoHash, PeerId};
use aquatic_tracker::peer::{AnnounceEvent, IpAddress, IpFamily, Peer, PeerAddress};
use aquatic_tracker::swarm::{SwarmShard, TorrentStatistics};
use aquatic_tracker::torrent::Torrent;

fn v4(last: u8, port: u16) -> PeerAddress {
    PeerAddress { ip: IpAddress::V4([10, 0, 0, last]), port }
}

fn v6(last: u8, port: u16) -> PeerAddress {
    let mut octets = [0u8; 16];
    octets[15] = last;
    PeerAddress { ip: IpAddress::V6(octets), port }
}

fn peer(id: u8, address: PeerAddress, is_seeder: bool, valid_until: u64) -> Peer {
    Peer { peer_id: PeerId([id; 20]), address, is_seeder, valid_until }
}

fn ids(peers: &[Peer]) -> Vec<u8> {
    peers.iter().map(|p| p.peer_id.0[0]).collect()
}

#[test]
fn counters_follow_every_announce() {
    let mut torrent = Torrent::new(IpFamily::V4);
    assert_eq!((torrent.seeders(), torrent.leechers(), torrent.len()), (0, 0, 0));
    torrent.announce(peer(1, v4(1, 1), false, 100), AnnounceEvent::Started, 10, 0);
    assert_eq!((torrent.seeders(), torrent.leechers(), torrent.len()), (0, 1, 1));
    torrent.announce(peer(2, v4(2, 2), true, 100), AnnounceEvent::Started, 10, 0);
    assert_eq!((torrent.seeders(), torrent.leechers(), torrent.len()), (1, 1, 2));
    torrent.announce(peer(3, v4(3, 3), false, 100), AnnounceEvent::Update, 10, 0);
    assert_eq!((torrent.seeders(), torrent.leechers(), torrent.len()), (1, 2, 3));
    // a leecher becomes a seeder
    torrent.announce(peer(1, v4(1, 1), true, 100), AnnounceEvent::Completed, 10, 0);
    assert_eq!((torrent.seeders(), torrent.leechers(), torrent.len()), (2, 1, 3));
    assert_eq!(torrent.completed(), 1);
    // a seeder becomes a leecher
    torrent.announce(peer(2, v4(2, 2), false, 100), AnnounceEvent::Update, 10, 0);
    assert_eq!((torrent.seeders(), torrent.leechers(), torrent.len()), (1, 2, 3));
    // the same state again changes nothing
    torrent.announce(peer(2, v4(2, 2), false, 120), AnnounceEvent::Update, 10, 0);
    assert_eq!((torrent.seeders(), torrent.leechers(), torrent.len()), (1, 2, 3));
    torrent.announce(peer(1, v4(1, 1), true, 100), AnnounceEvent::Stopped, 10, 0);
    assert_eq!((torrent.seeders(), torrent.leechers(), torrent.len()), (0, 2, 2));
    torrent.announce(peer(9, v4(9, 9), true, 100), AnnounceEvent::Stopped, 10, 0);
    assert_eq!((torrent.seeders(), torrent.leechers(), torrent.len()), (0, 2, 2));
    torrent.announce(peer(3, v4(3, 3), false, 100), AnnounceEvent::Stopped, 10, 0);
    torrent.announce(peer(2, v4(2, 2), false, 100), AnnounceEvent::Stopped, 10, 0);
    assert_eq!((torrent.seeders(), torrent.leechers(), torrent.len()), (0, 0, 0));
    assert_eq!(torrent.completed(), 1);
}

#[test]
fn stopped_then_started_on_an_empty_swarm() {
    let mut torrent = Torrent::new(IpFamily::V4);
    torrent.announce(peer(1, v4(1, 1), false, 100), AnnounceEvent::Stopped, 10, 0);
    assert_eq!(torrent.seeders() + torrent.leechers(), 0);
    torrent.announce(peer(1, v4(1, 1), false, 100), AnnounceEvent::Started, 10, 0);
    assert_eq!(torrent.seeders() + torrent.leechers(), 1);
    assert_eq!((torrent.seeders(), torrent.leechers()), (0, 1));

    let mut shard = SwarmShard::new();
    let hash = InfoHash([5; 20]);
    let first = shard.announce(&hash, peer(1, v4(1, 1), true, 100), AnnounceEvent::Stopped, 10, 0);
    assert_eq!((first.seeders, first.leechers), (0, 0));
    let second = shard.announce(&hash, peer(1, v4(1, 1), true, 100), AnnounceEvent::Started, 10, 0);
    assert_eq!(second.seeders + second.leechers, 1);
    assert_eq!((second.seeders, second.leechers), (1, 0));
}

#[test]
fn the_requester_is_not_in_its_own_answer() {
    let mut torrent = Torrent::new(IpFamily::V4);
    for id in 1..=5u8 {
        torrent.announce(peer(id, v4(id, 1000), false, 100), AnnounceEvent::Started, 0, 0);
    }
    for id in 1..=5u8 {
        for offset in 0..7usize {
            let answer =
                torrent.announce(peer(id, v4(id, 1000), false, 100), AnnounceEvent::Update, 50, offset);
            assert_eq!(answer.len(), 4);
            assert!(answer.iter().all(|p| p.peer_id != PeerId([id; 20])));
        }
    }
}

#[test]
fn the_answer_is_a_round_that_begins_at_the_offset() {
    let mut torrent = Torrent::new(IpFamily::V4);
    for id in 1..=5u8 {
        torrent.announce(peer(id, v4(id, 1000), false, 100), AnnounceEvent::Started, 0, 0);
    }
    let stranger = PeerId([9; 20]);
    assert_eq!(ids(&torrent.select_peers(&stranger, 10, 0)), vec![1, 2, 3, 4, 5]);
    assert_eq!(ids(&torrent.select_peers(&stranger, 10, 2)), vec![3, 4, 5, 1, 2]);
    assert_eq!(ids(&torrent.select_peers(&stranger, 10, 5)), vec![1, 2, 3, 4, 5]);
    assert_eq!(ids(&torrent.select_peers(&stranger, 10, 13)), vec![4, 5, 1, 2, 3]);
    assert_eq!(ids(&torrent.select_peers(&stranger, 2, 4)), vec![5, 1]);
    assert_eq!(ids(&torrent.select_peers(&stranger, 0, 4)), Vec::<u8>::new());
    assert_eq!(ids(&torrent.select_peers(&PeerId([5; 20]), 2, 4)), vec![1, 2]);
    assert_eq!(ids(&torrent.select_peers(&PeerId([3; 20]), 10, 1)), vec![2, 4, 5, 1]);
    assert_eq!(ids(&torrent.select_peers(&stranger, 3, usize::MAX)), {
        let start = (usize::MAX % 5) as u8;
        (0..3u8).map(|j| (start + j) % 5 + 1).collect::<Vec<u8>>()
    });
}

#[test]
fn a_peer_that_stops_makes_room_for_the_last() {
    let mut torrent = Torrent::new(IpFamily::V4);
    for id in 1..=4u8 {
        torrent.announce(peer(id, v4(id, 1000), false, 100), AnnounceEvent::Started, 0, 0);
    }
    torrent.announce(peer(2, v4(2, 1000), false, 100), AnnounceEvent::Stopped, 0, 0);
    let stranger = PeerId([9; 20]);
    assert_eq!(ids(&torrent.select_peers(&stranger, 10, 0)), vec![1, 4, 3]);
    // each of the peers left can still be found and replaced where it stands
    torrent.announce(peer(4, v4(40, 4000), true, 100), AnnounceEvent::Update, 0, 0);
    let all = torrent.select_peers(&stranger, 10, 0);
    assert_eq!(ids(&all), vec![1, 4, 3]);
    assert_eq!(all[1].address, v4(40, 4000));
    assert!(all[1].is_seeder);
    torrent.announce(peer(3, v4(3, 1000), false, 100), AnnounceEvent::Stopped, 0, 0);
    torrent.announce(peer(1, v4(1, 1000), false, 100), AnnounceEvent::Stopped, 0, 0);
    assert_eq!(ids(&torrent.select_peers(&stranger, 10, 0)), vec![4]);
    torrent.announce(peer(2, v4(2, 1000), false, 100), AnnounceEvent::Started, 0, 0);
    assert_eq!(ids(&torrent.select_peers(&stranger, 10, 0)), vec![4, 2]);
}

#[test]
fn address_families_do_not_mix() {
    let mut shard = SwarmShard::new();
    let hash = InfoHash([7; 20]);
    let a = shard.announce(&hash, peer(1, v4(1, 1), false, 100), AnnounceEvent::Started, 50, 0);
    assert!(a.peers.is_empty());
    let b = shard.announce(&hash, peer(2, v4(2, 2), false, 100), AnnounceEvent::Started, 50, 0);
    assert_eq!(ids(&b.peers), vec![1]);
    assert_eq!(b.peers[0].address, v4(1, 1));
    let c = shard.announce(&hash, peer(3, v6(3, 3), true, 100), AnnounceEvent::Started, 50, 0);
    assert!(c.peers.is_empty());
    assert_eq!((c.seeders, c.leechers), (1, 0));
    let d = shard.announce(&hash, peer(4, v6(4, 4), false, 100), AnnounceEvent::Started, 50, 0);
    assert_eq!(ids(&d.peers), vec![3]);
    assert!(d.peers.iter().all(|p| p.address.ip.family() == IpFamily::V6));
    let e = shard.announce(&hash, peer(5, v4(5, 5), false, 100), AnnounceEvent::Started, 50, 1);
    assert_eq!(ids(&e.peers), vec![2, 1]);
    assert!(e.peers.iter().all(|p| p.address.ip.family() == IpFamily::V4));
    assert_eq!(
        shard.scrape(IpFamily::V4, &hash),
        TorrentStatistics { seeders: 0, completed: 0, leechers: 3 }
    );
    assert_eq!(
        shard.scrape(IpFamily::V6, &hash),
        TorrentStatistics { seeders: 1, completed: 0, leechers: 1 }
    );
    assert_eq!(shard.peer_count(), 5);
    shard.announce(&InfoHash([8; 20]), peer(1, v4(1, 1), false, 100), AnnounceEvent::Started, 0, 0);
    assert_eq!(shard.peer_count(), 6);
    assert_eq!(SwarmShard::new().peer_count(), 0);
}

#[test]
fn torrents_are_kept_apart() {
    let mut shard = SwarmShard::new();
    let mut hashes = Vec::new();
    for n in 0..40u8 {
        let mut bytes = [0u8; 20];
        bytes[19] = n;
        hashes.push(InfoHash(bytes));
    }
    for (n, hash) in hashes.iter().enumerate() {
        for id in 0..(n as u8 % 4 + 1) {
            shard.announce(hash, peer(id, v4(id, 1), id == 0, 100), AnnounceEvent::Started, 0, 0);
        }
    }
    for (n, hash) in hashes.iter().enumerate() {
        let leechers = n % 4;
        assert_eq!(
            shard.scrape(IpFamily::V4, hash),
            TorrentStatistics { seeders: 1, completed: 0, leechers }
        );
    }
    assert_eq!(
        shard.scrape(IpFamily::V4, &InfoHash([0xee; 20])),
        TorrentStatistics { seeders: 0, completed: 0, leechers: 0 }
    );
}

#[test]
fn completed_events_are_counted() {
    let mut shard = SwarmShard::new();
    let hash = InfoHash([7; 20]);
    shard.announce(&hash, peer(1, v4(1, 1), false, 100), AnnounceEvent::Started, 0, 0);
    shard.announce(&hash, peer(1, v4(1, 1), true, 100), AnnounceEvent::Completed, 0, 0);
    shard.announce(&hash, peer(2, v4(2, 2), true, 100), AnnounceEvent::Completed, 0, 0);
    shard.announce(&hash, peer(2, v4(2, 2), true, 100), AnnounceEvent::Stopped, 0, 0);
    assert_eq!(
        shard.scrape(IpFamily::V4, &hash),
        TorrentStatistics { seeders: 1, completed: 2, leechers: 0 }
    );
}

#[test]
fn cleaning_removes_what_has_expired() {
    let mut torrent = Torrent::new(IpFamily::V4);
    for id in 1..=6u8 {
        let seeder = id % 2 == 0;
        torrent.announce(peer(id, v4(id, 1), seeder, 100 + id as u64), AnnounceEvent::Started, 0, 0);
    }
    torrent.clean(104);
    assert_eq!((torrent.seeders(), torrent.leechers(), torrent.len()), (2, 1, 3));
    assert_eq!(ids(&torrent.select_peers(&PeerId([9; 20]), 10, 0)), vec![4, 5, 6]);
    // the peers that are left can be found, replaced and removed
    torrent.announce(peer(5, v4(50, 5), true, 110), AnnounceEvent::Update, 0, 0);
    torrent.announce(peer(4, v4(4, 1), true, 110), AnnounceEvent::Stopped, 0, 0);
    assert_eq!(ids(&torrent.select_peers(&PeerId([9; 20]), 10, 0)), vec![6, 5]);
    torrent.announce(peer(4, v4(4, 1), true, 104), AnnounceEvent::Started, 0, 0);
    torrent.announce(peer(1, v4(1, 1), false, 100), AnnounceEvent::Started, 0, 0);
    assert_eq!((torrent.seeders(), torrent.leechers(), torrent.len()), (3, 1, 4));
    torrent.clean(104);
    assert_eq!(ids(&torrent.select_peers(&PeerId([9; 20]), 10, 0)), vec![6, 5, 4]);
    assert_eq!((torrent.seeders(), torrent.leechers(), torrent.len()), (3, 0, 3));
    torrent.announce(peer(5, v4(50, 5), true, 106), AnnounceEvent::Update, 0, 0);
    torrent.announce(peer(4, v4(4, 1), true, 104), AnnounceEvent::Stopped, 0, 0);
    torrent.clean(104);
    assert_eq!(torrent.len(), 2);
    torrent.clean(107);
    assert_eq!((torrent.seeders(), torrent.leechers(), torrent.len()), (0, 0, 0));
}

#[test]
fn an_expired_peer_is_in_no_answer_after_cleaning() {
    let mut shard = SwarmShard::new();
    let hash = InfoHash([7; 20]);
    let empty = InfoHash([8; 20]);
    shard.announce(&hash, peer(1, v4(1, 1), false, 50), AnnounceEvent::Started, 0, 0);
    shard.announce(&hash, peer(2, v4(2, 2), false, 200), AnnounceEvent::Started, 0, 0);
    shard.announce(&hash, peer(3, v6(3, 3), false, 50), AnnounceEvent::Started, 0, 0);
    shard.announce(&empty, peer(4, v4(4, 4), true, 99), AnnounceEvent::Completed, 0, 0);
    shard.clean(100);
    let answer = shard.announce(&hash, peer(5, v4(5, 5), false, 300), AnnounceEvent::Started, 50, 0);
    assert_eq!(ids(&answer.peers), vec![2]);
    assert!(answer.peers.iter().all(|p| p.valid_until >= 100));
    assert_eq!((answer.seeders, answer.leechers), (0, 2));
    // torrents without peers are gone, and their count of completed events with them
    assert_eq!(
        shard.scrape(IpFamily::V6, &hash),
        TorrentStatistics { seeders: 0, completed: 0, leechers: 0 }
    );
    assert_eq!(
        shard.scrape(IpFamily::V4, &empty),
        TorrentStatistics { seeders: 0, completed: 0, leechers: 0 }
    );
    // a peer that is valid exactly until now stays
    shard.clean(200);
    assert_eq!(shard.scrape(IpFamily::V4, &hash).leechers, 2);
    shard.clean(201);
    assert_eq!(shard.scrape(IpFamily::V4, &hash).leechers, 1);
}
