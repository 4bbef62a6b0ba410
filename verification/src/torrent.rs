//! One torrent: its peers and the counters kept beside them.

use crate::id_map::{swap_removed, IdMap};
use crate::ids::PeerId;
use crate::peer::{
    all_of_family, count_seeders, first_others, lemma_count_seeders_bound,
    lemma_count_seeders_push,
    lemma_count_seeders_swap_removed, lemma_count_seeders_update, lemma_index_of_distinct,
    lemma_still_valid, peer_ids, peers_after_announce, rotated, selected_peers, still_valid,
    AnnounceEvent, IpFamily, Peer,
};
use vstd::prelude::*;

verus! {

/// The number of `completed` events after one more: it stops at the largest
/// number that the counter can hold.
pub open spec fn completed_after(completed: u64, event: AnnounceEvent) -> u64 {
    if event is Completed && completed < u64::MAX {
        (completed + 1) as u64
    } else {
        completed
    }
}

/// The peers of one torrent, all of one address family, with the number of
/// seeders and leechers among them and the number of `completed` events
/// seen.
pub struct Torrent {
    family: IpFamily,
    peers: IdMap<Peer>,
    num_seeders: usize,
    num_leechers: usize,
    num_completed: u64,
}

impl Torrent {
    /// The address family of the peers.
    pub closed spec fn family(&self) -> IpFamily {
        self.family
    }

    /// The peers, in the order in which an announce walks them.
    pub closed spec fn peers(&self) -> Seq<Peer> {
        self.peers.values()
    }

    /// The counter of seeders.
    pub closed spec fn num_seeders(&self) -> nat {
        self.num_seeders as nat
    }

    /// The counter of leechers.
    pub closed spec fn num_leechers(&self) -> nat {
        self.num_leechers as nat
    }

    /// The counter of `completed` events.
    pub closed spec fn num_completed(&self) -> u64 {
        self.num_completed
    }

    /// The peers can be found by their identities.
    pub closed spec fn indexed(&self) -> bool {
        self.peers.wf() && self.peers.keys() == peer_ids(self.peers.values())
    }

    /// The torrent's invariant: no two peers share an identity, every peer is
    /// of the torrent's family, and the two counters say how many of the
    /// peers are seeders and how many are not.
    pub open spec fn wf(&self) -> bool {
        &&& self.indexed()
        &&& peer_ids(self.peers()).no_duplicates()
        &&& all_of_family(self.peers(), self.family())
        &&& self.num_seeders() == count_seeders(self.peers())
        &&& self.num_seeders() + self.num_leechers() == self.peers().len()
    }

    /// The counters of a torrent that keeps its invariant add up to the
    /// number of its peers, and the counter of seeders is the number of the
    /// peers that are seeders.
    pub proof fn law_counters_match_peers(&self)
        requires
            self.wf(),
        ensures
            self.num_seeders() + self.num_leechers() == self.peers().len(),
            self.num_seeders() == count_seeders(self.peers()),
    {
    }

    /// A torrent without peers.
    pub fn new(family: IpFamily) -> (torrent: Torrent)
        ensures
            torrent.wf(),
            torrent.family() == family,
            torrent.peers() == Seq::<Peer>::empty(),
            torrent.num_completed() == 0,
    {
        let torrent = Torrent {
            family,
            peers: IdMap::new(),
            num_seeders: 0,
            num_leechers: 0,
            num_completed: 0,
        };
        assert(peer_ids(torrent.peers()) =~= Seq::<Seq<u8>>::empty());
        torrent
    }

    /// The number of seeders.
    pub fn seeders(&self) -> (seeders: usize)
        requires
            self.wf(),
        ensures
            seeders == self.num_seeders(),
            seeders == count_seeders(self.peers()),
    {
        self.num_seeders
    }

    /// The number of leechers.
    pub fn leechers(&self) -> (leechers: usize)
        requires
            self.wf(),
        ensures
            leechers == self.num_leechers(),
            leechers == self.peers().len() - count_seeders(self.peers()),
    {
        self.num_leechers
    }

    /// The number of `completed` events seen.
    pub fn completed(&self) -> (completed: u64)
        ensures
            completed == self.num_completed(),
    {
        self.num_completed
    }

    /// The number of peers.
    pub fn len(&self) -> (len: usize)
        requires
            self.wf(),
        ensures
            len == self.peers().len(),
    {
        proof {
            self.peers.lemma_wf();
        }
        self.peers.len()
    }

    /// At most `limit` peers other than the requester, taken in a round that
    /// begins `offset` places into the peers.
    pub fn select_peers(&self, requester: &PeerId, limit: usize, offset: usize) -> (selected: Vec<
        Peer,
    >)
        requires
            self.wf(),
        ensures
            selected@ == selected_peers(self.peers(), requester@, limit as nat, offset as nat),
    {
        proof {
            self.peers.lemma_wf();
        }
        let n = self.peers.len();
        let mut selected: Vec<Peer> = Vec::new();
        if n == 0 {
            return selected;
        }
        let start = offset % n;
        let ghost round = rotated(self.peers(), start as int);
        let ghost whole = first_others(round, requester@, limit as nat);
        assert(round.skip(0) =~= round);
        let mut j: usize = 0;
        while j < n && selected.len() < limit
            invariant
                self.wf(),
                n == self.peers().len(),
                n == self.peers.values().len(),
                start < n,
                j <= n,
                selected@.len() <= limit,
                round == rotated(self.peers(), start as int),
                whole == first_others(round, requester@, limit as nat),
                selected@ + first_others(
                    round.skip(j as int),
                    requester@,
                    (limit - selected@.len()) as nat,
                ) == whole,
            decreases n - j,
        {
            let place = if j < n - start {
                start + j
            } else {
                j - (n - start)
            };
            let peer = *self.peers.value(place);
            proof {
                let rest = round.skip(j as int);
                assert(rest.first() == peer);
                assert(rest.drop_first() =~= round.skip(j + 1));
            }
            if !peer.peer_id.same(requester) {
                let ghost before = selected@;
                selected.push(peer);
                proof {
                    let tail = first_others(
                        round.skip(j + 1),
                        requester@,
                        (limit - selected@.len()) as nat,
                    );
                    assert(selected@ + tail =~= before + (seq![peer] + tail));
                }
            }
            j += 1;
        }
        proof {
            if j == n {
                assert(round.skip(j as int).len() == 0);
            }
            assert(selected@ + Seq::<Peer>::empty() =~= selected@);
        }
        selected
    }

    /// Applies an announce of `peer` with `event` and answers with at most
    /// `limit` other peers, taken in a round that begins `offset` places into
    /// the peers.
    ///
    /// `Stopped` removes the peer. Any other event records `peer` in place of
    /// what was known of it, or as a new peer. `Completed` is counted. The
    /// counters of seeders and leechers follow.
    pub fn announce(&mut self, peer: Peer, event: AnnounceEvent, limit: usize, offset: usize) -> (selected:
        Vec<Peer>)
        requires
            old(self).wf(),
            peer.address.ip.family() == old(self).family(),
        ensures
            final(self).wf(),
            final(self).family() == old(self).family(),
            final(self).peers() == peers_after_announce(old(self).peers(), peer, event),
            final(self).num_completed() == completed_after(old(self).num_completed(), event),
            final(self).num_seeders() + final(self).num_leechers() == final(self).peers().len(),
            selected@ == selected_peers(
                final(self).peers(),
                peer.peer_id@,
                limit as nat,
                offset as nat,
            ),
    {
        proof {
            self.peers.lemma_wf();
        }
        let ghost before = self.peers();
        let found = self.peers.position(&peer.peer_id.0);
        match event {
            AnnounceEvent::Stopped => {
                if let Some(place) = found {
                    proof {
                        lemma_index_of_distinct(peer_ids(before), place as int);
                        lemma_count_seeders_swap_removed(before, place as int);
                        lemma_count_seeders_bound(swap_removed(before, place as int));
                    }
                    let gone = self.peers.swap_remove(place);
                    if gone.is_seeder {
                        self.num_seeders = self.num_seeders - 1;
                    } else {
                        self.num_leechers = self.num_leechers - 1;
                    }
                    proof {
                        let after = swap_removed(before, place as int);
                        assert(peer_ids(after) =~= swap_removed(peer_ids(before), place as int));
                        self.peers.lemma_wf();
                    }
                }
            },
            _ => {
                if event == AnnounceEvent::Completed && self.num_completed < u64::MAX {
                    self.num_completed = self.num_completed + 1;
                }
                match found {
                    Some(place) => {
                        proof {
                            lemma_index_of_distinct(peer_ids(before), place as int);
                            lemma_count_seeders_update(before, place as int, peer);
                            lemma_count_seeders_bound(before.update(place as int, peer));
                        }
                        let was_seeder = self.peers.value(place).is_seeder;
                        *self.peers.value_mut(place) = peer;
                        if was_seeder && !peer.is_seeder {
                            self.num_seeders = self.num_seeders - 1;
                            self.num_leechers = self.num_leechers + 1;
                        } else if !was_seeder && peer.is_seeder {
                            self.num_leechers = self.num_leechers - 1;
                            self.num_seeders = self.num_seeders + 1;
                        }
                        proof {
                            assert(peer_ids(before.update(place as int, peer)) =~= peer_ids(before));
                        }
                    },
                    None => {
                        proof {
                            lemma_count_seeders_push(before, peer);
                        }
                        self.peers.push(peer.peer_id.0, peer);
                        proof {
                            self.peers.lemma_wf();
                        }
                        if peer.is_seeder {
                            self.num_seeders = self.num_seeders + 1;
                        } else {
                            self.num_leechers = self.num_leechers + 1;
                        }
                        proof {
                            assert(peer_ids(before.push(peer)) =~= peer_ids(before).push(
                                peer.peer_id@,
                            ));
                        }
                    },
                }
            },
        }
        self.select_peers(&peer.peer_id, limit, offset)
    }

    /// Removes the peers whose `valid_until` lies before `now`. The others
    /// stay, in their order.
    pub fn clean(&mut self, now: u64)
        requires
            old(self).wf(),
        ensures
            final(self).wf(),
            final(self).family() == old(self).family(),
            final(self).num_completed() == old(self).num_completed(),
            final(self).num_seeders() + final(self).num_leechers() == final(self).peers().len(),
            final(self).peers() == still_valid(old(self).peers(), now),
    {
        proof {
            self.peers.lemma_wf();
        }
        let ghost before = self.peers();
        let count = self.peers.len();
        let mut kept: IdMap<Peer> = IdMap::new();
        let mut seeders: usize = 0;
        let mut i: usize = 0;
        assert(before.take(0) =~= Seq::<Peer>::empty());
        assert(peer_ids(Seq::<Peer>::empty()) =~= Seq::<Seq<u8>>::empty());
        while i < count
            invariant
                self.wf(),
                before == self.peers(),
                count == before.len(),
                i <= count,
                kept.wf(),
                kept.values() == still_valid(before.take(i as int), now),
                kept.keys() == peer_ids(kept.values()),
                seeders == count_seeders(kept.values()),
                seeders <= kept.values().len() <= i,
            decreases count - i,
        {
            let peer = *self.peers.value(i);
            proof {
                let seen = before.take(i as int);
                assert(before.take(i + 1).drop_last() =~= seen);
                assert(before.take(i + 1).last() == peer);
                lemma_still_valid(seen, now);
                if kept.keys().contains(peer.peer_id@) {
                    assert(peer_ids(seen).contains(peer.peer_id@));
                    let j = choose|j: int|
                        0 <= j < peer_ids(seen).len() && peer_ids(seen)[j] == peer.peer_id@;
                    assert(peer_ids(before)[j] == peer_ids(before)[i as int]);
                }
                lemma_count_seeders_push(kept.values(), peer);
                lemma_count_seeders_bound(kept.values());
            }
            if peer.valid_until >= now {
                let ghost earlier = kept.values();
                kept.push(peer.peer_id.0, peer);
                if peer.is_seeder {
                    seeders = seeders + 1;
                }
                proof {
                    assert(peer_ids(earlier.push(peer)) =~= peer_ids(earlier).push(peer.peer_id@));
                }
            }
            i += 1;
        }
        proof {
            assert(before.take(count as int) =~= before);
            lemma_still_valid(before, now);
            lemma_count_seeders_bound(kept.values());
            kept.lemma_wf();
            let after = kept.values();
            assert forall|k: int| 0 <= k < after.len() implies (
            #[trigger] after[k]).address.ip.family() == self.family() by {
                assert(after.contains(after[k]));
                let j = choose|j: int| 0 <= j < before.len() && before[j] == after[k];
                assert(before[j].address.ip.family() == self.family());
            }
        }
        let left = kept.len();
        self.peers = kept;
        self.num_seeders = seeders;
        self.num_leechers = left - seeders;
    }
}

} // verus!
