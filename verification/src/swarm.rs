//! The swarm store of one request worker: the torrents it owns, by address
//! family and info-hash.

use crate::id_map::IdMap;
use crate::ids::InfoHash;
use crate::peer::{
    count_seeders, lemma_selected_peers, peers_after_announce, selected_peers, still_valid,
    AnnounceEvent, IpFamily, Peer,
};
use crate::torrent::{completed_after, Torrent};
use vstd::prelude::*;

verus! {

/// What an announce is answered with.
#[derive(Debug)]
pub struct AnnounceOutcome {
    /// Other peers of the torrent, of the requester's address family.
    pub peers: Vec<Peer>,
    /// The seeders of the torrent, the requester counted.
    pub seeders: usize,
    /// The leechers of the torrent, the requester counted.
    pub leechers: usize,
}

impl AnnounceOutcome {
    /// That this is the answer to an announce of `peer` after which the
    /// shard is `shard`: the counters of the torrent, and at most `limit` of
    /// its peers other than the requester, taken in a round that begins
    /// `offset` places into the torrent's peers.
    pub open spec fn answers(
        &self,
        shard: &SwarmShard,
        info_hash: Seq<u8>,
        peer: Peer,
        limit: nat,
        offset: nat,
    ) -> bool {
        let stored = shard.peers_of(peer.address.ip.family(), info_hash);
        &&& self.peers@ == selected_peers(stored, peer.peer_id@, limit, offset)
        &&& self.seeders == count_seeders(stored)
        &&& self.seeders + self.leechers == stored.len()
    }
}

/// What a scrape tells of one torrent.
#[derive(Clone, Copy, Debug, PartialEq, Eq)]
pub struct TorrentStatistics {
    pub seeders: usize,
    pub completed: u64,
    pub leechers: usize,
}

/// The peers of the torrent with this info-hash; none if there is no such
/// torrent.
pub open spec fn peers_in(torrents: Map<Seq<u8>, Torrent>, info_hash: Seq<u8>) -> Seq<Peer> {
    if torrents.contains_key(info_hash) {
        torrents[info_hash].peers()
    } else {
        Seq::empty()
    }
}

/// The `completed` events counted for the torrent with this info-hash; zero
/// if there is no such torrent.
pub open spec fn completed_in(torrents: Map<Seq<u8>, Torrent>, info_hash: Seq<u8>) -> u64 {
    if torrents.contains_key(info_hash) {
        torrents[info_hash].num_completed()
    } else {
        0
    }
}

/// Every torrent of the map keeps its invariant and is of the family.
pub open spec fn torrents_wf(map: &IdMap<Torrent>, family: IpFamily) -> bool {
    &&& map.wf()
    &&& forall|i: int|
        0 <= i < map.values().len() ==> (#[trigger] map.values()[i]).wf() && map.values()[i].family()
            == family
}

/// `after` is `before` without the peers whose `valid_until` lies before
/// `now`.
pub open spec fn cleaned(before: Torrent, after: Torrent, now: u64) -> bool {
    &&& after.num_completed() == before.num_completed()
    &&& after.peers() == still_valid(before.peers(), now)
}

/// The peers of all the torrents together.
pub open spec fn peers_in_all(torrents: Seq<Torrent>) -> nat
    decreases torrents.len(),
{
    if torrents.len() == 0 {
        0
    } else {
        peers_in_all(torrents.drop_last()) + torrents.last().peers().len()
    }
}

/// The number of peers in the torrents of a map, or the largest number
/// there is if there are more.
fn count_peers(map: &IdMap<Torrent>, family: IpFamily) -> (count: usize)
    requires
        torrents_wf(map, family),
    ensures
        count == if peers_in_all(map.values()) <= usize::MAX {
            peers_in_all(map.values())
        } else {
            usize::MAX as nat
        },
{
    proof {
        map.lemma_wf();
    }
    let mut count: usize = 0;
    let mut i: usize = 0;
    assert(map.values().subrange(0, 0) =~= Seq::<Torrent>::empty());
    while i < map.len()
        invariant
            torrents_wf(map, family),
            i <= map.values().len(),
            map.keys().len() == map.values().len(),
            count == if peers_in_all(map.values().subrange(0, i as int)) <= usize::MAX {
                peers_in_all(map.values().subrange(0, i as int))
            } else {
                usize::MAX as nat
            },
        decreases map.values().len() - i,
    {
        assert(map.values().subrange(0, i + 1).drop_last() =~= map.values().subrange(0, i as int));
        count = match count.checked_add(map.value(i).len()) {
            Some(more) => more,
            None => usize::MAX,
        };
        i += 1;
    }
    assert(map.values().subrange(0, i as int) =~= map.values());
    count
}

/// A torrent found through its info-hash keeps its invariant.
proof fn lemma_torrent_wf(map: &IdMap<Torrent>, family: IpFamily, info_hash: Seq<u8>)
    requires
        torrents_wf(map, family),
        map.as_map().contains_key(info_hash),
    ensures
        map.as_map()[info_hash].wf(),
        map.as_map()[info_hash].family() == family,
{
    map.lemma_wf();
    let i = map.keys().index_of(info_hash);
    map.lemma_entry(i);
}

/// Applies an announce to the torrent with this info-hash in the map of the
/// peer's family, and answers with other peers of that torrent.
fn announce_in(
    map: &mut IdMap<Torrent>,
    family: IpFamily,
    info_hash: &InfoHash,
    peer: Peer,
    event: AnnounceEvent,
    limit: usize,
    offset: usize,
) -> (outcome: AnnounceOutcome)
    requires
        torrents_wf(old(map), family),
        peer.address.ip.family() == family,
    ensures
        torrents_wf(final(map), family),
        final(map).as_map().dom() == old(map).as_map().dom().insert(info_hash@),
        forall|other: Seq<u8>|
            other != info_hash@ && old(map).as_map().contains_key(other) ==> #[trigger] final(map).as_map()[other] == old(map).as_map()[other],
        peers_in(final(map).as_map(), info_hash@) == peers_after_announce(
            peers_in(old(map).as_map(), info_hash@),
            peer,
            event,
        ),
        completed_in(final(map).as_map(), info_hash@) == completed_after(
            completed_in(old(map).as_map(), info_hash@),
            event,
        ),
        outcome.peers@ == selected_peers(
            peers_in(final(map).as_map(), info_hash@),
            peer.peer_id@,
            limit as nat,
            offset as nat,
        ),
        outcome.seeders == count_seeders(peers_in(final(map).as_map(), info_hash@)),
        outcome.seeders + outcome.leechers == peers_in(final(map).as_map(), info_hash@).len(),
{
    proof {
        map.lemma_wf();
    }
    let place = match map.position(&info_hash.0) {
        Some(place) => place,
        None => {
            map.push(info_hash.0, Torrent::new(family));
            proof {
                map.lemma_wf();
            }
            map.len() - 1
        },
    };
    let ghost known = *map;
    proof {
        known.lemma_entry(place as int);
        if old(map).as_map().contains_key(info_hash@) {
            old(map).lemma_entry(place as int);
        }
        assert(peers_in(known.as_map(), info_hash@) == peers_in(old(map).as_map(), info_hash@));
        assert(completed_in(known.as_map(), info_hash@) == completed_in(
            old(map).as_map(),
            info_hash@,
        ));
    }
    let torrent = map.value_mut(place);
    let peers = torrent.announce(peer, event, limit, offset);
    let seeders = torrent.seeders();
    let leechers = torrent.leechers();
    proof {
        known.lemma_value_changed(map, place as int);
        assert(final(map).as_map().dom() =~= old(map).as_map().dom().insert(info_hash@));
        assert forall|i: int| 0 <= i < map.values().len() implies (#[trigger] map.values()[i]).wf()
            && map.values()[i].family() == family by {
            if i != place {
                assert(map.values()[i] == known.values()[i]);
            }
        }
    }
    AnnounceOutcome { peers, seeders, leechers }
}

/// The counters of the torrent with this info-hash in a map: zeros if there
/// is none.
fn scrape_in(map: &IdMap<Torrent>, family: IpFamily, info_hash: &InfoHash) -> (statistics:
    TorrentStatistics)
    requires
        torrents_wf(map, family),
    ensures
        statistics.seeders == count_seeders(peers_in(map.as_map(), info_hash@)),
        statistics.seeders + statistics.leechers == peers_in(map.as_map(), info_hash@).len(),
        statistics.completed == completed_in(map.as_map(), info_hash@),
{
    proof {
        map.lemma_wf();
    }
    match map.position(&info_hash.0) {
        Some(place) => {
            proof {
                map.lemma_entry(place as int);
            }
            let torrent = map.value(place);
            TorrentStatistics {
                seeders: torrent.seeders(),
                completed: torrent.completed(),
                leechers: torrent.leechers(),
            }
        },
        None => TorrentStatistics { seeders: 0, completed: 0, leechers: 0 },
    }
}

/// Cleans every torrent of the map where it stands.
fn clean_each(map: &mut IdMap<Torrent>, family: IpFamily, now: u64)
    requires
        torrents_wf(old(map), family),
    ensures
        torrents_wf(final(map), family),
        final(map).keys() == old(map).keys(),
        forall|i: int|
            0 <= i < old(map).values().len() ==> cleaned(
                old(map).values()[i],
                #[trigger] final(map).values()[i],
                now,
            ),
{
    proof {
        map.lemma_wf();
    }
    let count = map.len();
    let mut i: usize = 0;
    while i < count
        invariant
            torrents_wf(map, family),
            map.keys() == old(map).keys(),
            count == map.values().len(),
            count == old(map).values().len(),
            i <= count,
            forall|j: int|
                0 <= j < i ==> cleaned(old(map).values()[j], #[trigger] map.values()[j], now),
            forall|j: int| i <= j < count ==> #[trigger] map.values()[j] == old(map).values()[j],
        decreases count - i,
    {
        let ghost before = *map;
        let torrent = map.value_mut(i);
        torrent.clean(now);
        proof {
            assert forall|j: int| 0 <= j < map.values().len() implies (#[trigger] map.values()[j]).wf()
                && map.values()[j].family() == family by {
                if j != i {
                    assert(map.values()[j] == before.values()[j]);
                }
            }
            assert forall|j: int| 0 <= j < i + 1 implies cleaned(
                old(map).values()[j],
                #[trigger] map.values()[j],
                now,
            ) by {
                if j != i {
                    assert(map.values()[j] == before.values()[j]);
                }
            }
            assert forall|j: int| i + 1 <= j < count implies #[trigger] map.values()[j] == old(map).values()[j] by {
                assert(map.values()[j] == before.values()[j]);
            }
        }
        i += 1;
    }
}

/// Drops the torrents of the map that have no peers.
fn drop_empty(map: &mut IdMap<Torrent>, family: IpFamily)
    requires
        torrents_wf(old(map), family),
    ensures
        torrents_wf(final(map), family),
        forall|k: Seq<u8>| #[trigger]
            final(map).as_map().contains_key(k) <==> old(map).as_map().contains_key(k) && old(map).as_map()[k].peers().len() > 0,
        forall|k: Seq<u8>| #[trigger]
            final(map).as_map().contains_key(k) ==> final(map).as_map()[k] == old(map).as_map()[k],
{
    let mut i: usize = 0;
    proof {
        map.lemma_wf();
    }
    while i < map.len()
        invariant
            torrents_wf(map, family),
            i <= map.keys().len(),
            map.keys().len() == map.values().len(),
            forall|j: int| 0 <= j < i ==> (#[trigger] map.values()[j]).peers().len() > 0,
            forall|k: Seq<u8>| #[trigger]
                map.as_map().contains_key(k) ==> old(map).as_map().contains_key(k)
                    && map.as_map()[k] == old(map).as_map()[k],
            forall|k: Seq<u8>|
                old(map).as_map().contains_key(k) && old(map).as_map()[k].peers().len() > 0
                    ==> #[trigger] map.as_map().contains_key(k),
        decreases map.keys().len() - i,
    {
        let ghost before = *map;
        proof {
            before.lemma_entry(i as int);
        }
        if map.value(i).len() == 0 {
            let _ = map.swap_remove(i);
            proof {
                map.lemma_wf();
                assert forall|j: int| 0 <= j < map.values().len() implies (
                #[trigger] map.values()[j]).wf() && map.values()[j].family() == family by {
                    if j == i {
                        assert(map.values()[j] == before.values()[before.values().len() - 1]);
                    } else {
                        assert(map.values()[j] == before.values()[j]);
                    }
                }
                assert forall|j: int| 0 <= j < i implies (#[trigger] map.values()[j]).peers().len()
                    > 0 by {
                    assert(map.values()[j] == before.values()[j]);
                }
            }
        } else {
            i += 1;
        }
    }
    proof {
        assert forall|k: Seq<u8>| #[trigger] map.as_map().contains_key(k) implies old(map).as_map()[k].peers().len() > 0 by {
            let j = map.keys().index_of(k);
            map.lemma_entry(j);
        }
    }
}

/// The torrents that one request worker owns. Peers that announce over IPv4
/// and peers that announce over IPv6 are kept apart.
pub struct SwarmShard {
    ipv4: IdMap<Torrent>,
    ipv6: IdMap<Torrent>,
}

impl SwarmShard {
    /// The torrents of a family, by info-hash.
    pub closed spec fn torrents(&self, family: IpFamily) -> Map<Seq<u8>, Torrent> {
        match family {
            IpFamily::V4 => self.ipv4.as_map(),
            IpFamily::V6 => self.ipv6.as_map(),
        }
    }

    /// The torrents of a family, in the order in which the shard keeps them.
    pub closed spec fn torrent_list(&self, family: IpFamily) -> Seq<Torrent> {
        match family {
            IpFamily::V4 => self.ipv4.values(),
            IpFamily::V6 => self.ipv6.values(),
        }
    }

    /// Whether the shard has a torrent with this info-hash for the family.
    pub open spec fn holds(&self, family: IpFamily, info_hash: Seq<u8>) -> bool {
        self.torrents(family).contains_key(info_hash)
    }

    /// The peers of a torrent; none if the shard does not hold it.
    pub open spec fn peers_of(&self, family: IpFamily, info_hash: Seq<u8>) -> Seq<Peer> {
        peers_in(self.torrents(family), info_hash)
    }

    /// The `completed` events counted for a torrent; zero if the shard does
    /// not hold it.
    pub open spec fn completed_of(&self, family: IpFamily, info_hash: Seq<u8>) -> u64 {
        completed_in(self.torrents(family), info_hash)
    }

    /// Every torrent keeps its invariant and stands under its own family.
    pub closed spec fn wf(&self) -> bool {
        torrents_wf(&self.ipv4, IpFamily::V4) && torrents_wf(&self.ipv6, IpFamily::V6)
    }

    /// In a well-formed shard every torrent keeps its invariant: its peers
    /// have distinct identities and addresses of the family under which the
    /// torrent stands.
    pub proof fn lemma_wf(&self, family: IpFamily, info_hash: Seq<u8>)
        requires
            self.wf(),
        ensures
            crate::peer::peer_ids(self.peers_of(family, info_hash)).no_duplicates(),
            crate::peer::all_of_family(self.peers_of(family, info_hash), family),
    {
        if self.holds(family, info_hash) {
            match family {
                IpFamily::V4 => lemma_torrent_wf(&self.ipv4, family, info_hash),
                IpFamily::V6 => lemma_torrent_wf(&self.ipv6, family, info_hash),
            }
        }
    }

    /// That `after` is this shard after an announce of `peer` with `event`
    /// for the torrent with this info-hash.
    ///
    /// The torrent stands under the family of the peer's address; it is made
    /// if the shard did not hold it. `Stopped` removes the peer; any other
    /// event records it in place of what was known of it. `Completed` is
    /// counted. Nothing else in the shard changes.
    pub open spec fn announced(
        &self,
        after: &SwarmShard,
        info_hash: Seq<u8>,
        peer: Peer,
        event: AnnounceEvent,
    ) -> bool {
        let own = peer.address.ip.family();
        &&& after.holds(own, info_hash)
        &&& after.peers_of(own, info_hash) == peers_after_announce(
            self.peers_of(own, info_hash),
            peer,
            event,
        )
        &&& after.completed_of(own, info_hash) == completed_after(
            self.completed_of(own, info_hash),
            event,
        )
        &&& forall|family: IpFamily, other: Seq<u8>|
            family != own || other != info_hash ==> {
                &&& #[trigger] after.holds(family, other) == self.holds(family, other)
                &&& after.peers_of(family, other) == self.peers_of(family, other)
                &&& after.completed_of(family, other) == self.completed_of(family, other)
            }
    }

    /// A shard without torrents.
    pub fn new() -> (shard: SwarmShard)
        ensures
            shard.wf(),
            forall|family: IpFamily, info_hash: Seq<u8>| !shard.holds(family, info_hash),
    {
        SwarmShard { ipv4: IdMap::new(), ipv6: IdMap::new() }
    }

    /// Applies an announce to the torrent with this info-hash, under the
    /// family of the peer's address, and answers with other peers of that
    /// torrent.
    ///
    /// The torrent is made if the shard does not hold it. `Stopped` removes
    /// the peer; any other event records it in place of what was known of it.
    /// `Completed` is counted. The answer holds at most `limit` peers, none
    /// of them the requester, all of the requester's family, taken in a round
    /// that begins `offset` places into the torrent's peers. Nothing else in
    /// the shard changes.
    pub fn announce(
        &mut self,
        info_hash: &InfoHash,
        peer: Peer,
        event: AnnounceEvent,
        limit: usize,
        offset: usize,
    ) -> (outcome: AnnounceOutcome)
        requires
            old(self).wf(),
        ensures
            final(self).wf(),
            old(self).announced(final(self), info_hash@, peer, event),
            outcome.answers(final(self), info_hash@, peer, limit as nat, offset as nat),
            outcome.peers@.len() <= limit,
            forall|i: int|
                0 <= i < outcome.peers@.len() ==> {
                    &&& (#[trigger] outcome.peers@[i]).peer_id@ != peer.peer_id@
                    &&& outcome.peers@[i].address.ip.family() == peer.address.ip.family()
                    &&& final(self).peers_of(peer.address.ip.family(), info_hash@).contains(
                        outcome.peers@[i],
                    )
                },
    {
        let family = peer.address.ip.family();
        let outcome = match family {
            IpFamily::V4 => announce_in(
                &mut self.ipv4,
                family,
                info_hash,
                peer,
                event,
                limit,
                offset,
            ),
            IpFamily::V6 => announce_in(
                &mut self.ipv6,
                family,
                info_hash,
                peer,
                event,
                limit,
                offset,
            ),
        };
        proof {
            let stored = self.peers_of(family, info_hash@);
            self.lemma_wf(family, info_hash@);
            lemma_selected_peers(stored, peer.peer_id@, limit as nat, offset as nat);
            assert forall|i: int| 0 <= i < outcome.peers@.len() implies (
            #[trigger] outcome.peers@[i]).address.ip.family() == family by {
                let k = choose|k: int| 0 <= k < stored.len() && stored[k] == outcome.peers@[i];
                assert(stored[k].address.ip.family() == family);
            }
        }
        outcome
    }

    /// The number of peers in all torrents of both families, or the largest
    /// number there is if there are more.
    pub fn peer_count(&self) -> (count: usize)
        requires
            self.wf(),
        ensures
            count == if peers_in_all(self.torrent_list(IpFamily::V4)) + peers_in_all(
                self.torrent_list(IpFamily::V6),
            ) <= usize::MAX {
                peers_in_all(self.torrent_list(IpFamily::V4)) + peers_in_all(
                    self.torrent_list(IpFamily::V6),
                )
            } else {
                usize::MAX as nat
            },
    {
        let v4 = count_peers(&self.ipv4, IpFamily::V4);
        let v6 = count_peers(&self.ipv6, IpFamily::V6);
        match v4.checked_add(v6) {
            Some(both) => both,
            None => usize::MAX,
        }
    }

    /// The counters of a torrent: zeros if the shard does not hold it.
    pub fn scrape(&self, family: IpFamily, info_hash: &InfoHash) -> (statistics: TorrentStatistics)
        requires
            self.wf(),
        ensures
            statistics.seeders == count_seeders(self.peers_of(family, info_hash@)),
            statistics.seeders + statistics.leechers == self.peers_of(family, info_hash@).len(),
            statistics.completed == self.completed_of(family, info_hash@),
    {
        match family {
            IpFamily::V4 => scrape_in(&self.ipv4, family, info_hash),
            IpFamily::V6 => scrape_in(&self.ipv6, family, info_hash),
        }
    }

    /// Removes every peer whose `valid_until` lies before `now`, then every
    /// torrent that has no peers left.
    ///
    /// The peers of a torrent that stay are those that are still valid, in
    /// their order. A torrent stays if one of its peers does, and keeps its
    /// count of `completed` events; the count of a torrent that goes is
    /// forgotten.
    pub fn clean(&mut self, now: u64)
        requires
            old(self).wf(),
        ensures
            final(self).wf(),
            forall|family: IpFamily, info_hash: Seq<u8>| #[trigger]
                final(self).holds(family, info_hash) <==> still_valid(
                    old(self).peers_of(family, info_hash),
                    now,
                ).len() > 0,
            forall|family: IpFamily, info_hash: Seq<u8>| #[trigger]
                final(self).peers_of(family, info_hash) == still_valid(
                    old(self).peers_of(family, info_hash),
                    now,
                ),
            forall|family: IpFamily, info_hash: Seq<u8>| #[trigger]
                final(self).completed_of(family, info_hash) == if final(self).holds(
                    family,
                    info_hash,
                ) {
                    old(self).completed_of(family, info_hash)
                } else {
                    0
                },
    {
        clean_map(&mut self.ipv4, IpFamily::V4, now);
        clean_map(&mut self.ipv6, IpFamily::V6, now);
        proof {
            assert forall|family: IpFamily, info_hash: Seq<u8>| #[trigger]
                self.holds(family, info_hash) <==> still_valid(
                    old(self).peers_of(family, info_hash),
                    now,
                ).len() > 0 by {
                match family {
                    IpFamily::V4 => {},
                    IpFamily::V6 => {},
                }
            }
            assert forall|family: IpFamily, info_hash: Seq<u8>| #[trigger]
                self.peers_of(family, info_hash) == still_valid(
                    old(self).peers_of(family, info_hash),
                    now,
                ) by {
                match family {
                    IpFamily::V4 => {},
                    IpFamily::V6 => {},
                }
            }
            assert forall|family: IpFamily, info_hash: Seq<u8>| #[trigger]
                self.completed_of(family, info_hash) == if self.holds(family, info_hash) {
                    old(self).completed_of(family, info_hash)
                } else {
                    0
                } by {
                match family {
                    IpFamily::V4 => {},
                    IpFamily::V6 => {},
                }
            }
        }
    }
}

/// Cleans every torrent of the map, then drops those without peers.
fn clean_map(map: &mut IdMap<Torrent>, family: IpFamily, now: u64)
    requires
        torrents_wf(old(map), family),
    ensures
        torrents_wf(final(map), family),
        forall|k: Seq<u8>| #[trigger]
            final(map).as_map().contains_key(k) <==> still_valid(
                peers_in(old(map).as_map(), k),
                now,
            ).len() > 0,
        forall|k: Seq<u8>| #[trigger]
            peers_in(final(map).as_map(), k) == still_valid(peers_in(old(map).as_map(), k), now),
        forall|k: Seq<u8>| #[trigger]
            final(map).as_map().contains_key(k) ==> completed_in(final(map).as_map(), k)
                == completed_in(old(map).as_map(), k),
{
    clean_each(map, family, now);
    let ghost swept = *map;
    drop_empty(map, family);
    proof {
        old(map).lemma_wf();
        swept.lemma_wf();
        assert forall|k: Seq<u8>| old(map).as_map().contains_key(k) implies cleaned(
            old(map).as_map()[k],
            swept.as_map()[k],
            now,
        ) && swept.as_map().contains_key(k) by {
            let j = old(map).keys().index_of(k);
            old(map).lemma_entry(j);
            swept.lemma_entry(j);
        }
        assert forall|k: Seq<u8>| swept.as_map().contains_key(k) implies old(
            map,
        ).as_map().contains_key(k) by {
            let j = swept.keys().index_of(k);
            old(map).lemma_entry(j);
        }
        assert forall|k: Seq<u8>| #[trigger]
            map.as_map().contains_key(k) <==> still_valid(peers_in(old(map).as_map(), k), now).len()
                > 0 by {
            if old(map).as_map().contains_key(k) {
                assert(swept.as_map().contains_key(k));
            }
        }
        assert forall|k: Seq<u8>| #[trigger]
            peers_in(map.as_map(), k) == still_valid(peers_in(old(map).as_map(), k), now) by {
            if old(map).as_map().contains_key(k) {
                assert(swept.as_map().contains_key(k));
                if !map.as_map().contains_key(k) {
                    assert(swept.as_map()[k].peers().len() == 0);
                    assert(swept.as_map()[k].peers() =~= Seq::<Peer>::empty());
                }
            }
        }
    }
}

} // verus!
