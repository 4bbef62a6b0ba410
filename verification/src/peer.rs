//! Peers, their addresses, and what an announce does to the peers of a
//! torrent.

use crate::be::push_bytes;
use crate::id_map::swap_removed;
use crate::ids::{same_octets, PeerId};
use vstd::array::array_as_slice;
use vstd::prelude::*;

verus! {

/// The two families of addresses. Their peers never mix.
#[derive(Clone, Copy, Debug, PartialEq, Eq, Structural)]
pub enum IpFamily {
    V4,
    V6,
}

/// An IPv4 or IPv6 address, as its bytes in network order.
#[derive(Clone, Copy, Debug, PartialEq, Eq)]
pub enum IpAddress {
    V4([u8; 4]),
    V6([u8; 16]),
}

impl IpAddress {
    /// The family of the address.
    pub open spec fn spec_family(&self) -> IpFamily {
        match self {
            IpAddress::V4(_) => IpFamily::V4,
            IpAddress::V6(_) => IpFamily::V6,
        }
    }

    /// The family of the address.
    #[verifier::when_used_as_spec(spec_family)]
    pub fn family(&self) -> (family: IpFamily)
        ensures
            family == self.spec_family(),
    {
        match self {
            IpAddress::V4(_) => IpFamily::V4,
            IpAddress::V6(_) => IpFamily::V6,
        }
    }

    /// The bytes of the address: four or sixteen.
    pub open spec fn bytes(&self) -> Seq<u8> {
        match self {
            IpAddress::V4(octets) => octets@,
            IpAddress::V6(octets) => octets@,
        }
    }

    /// The bytes of the address: four or sixteen.
    pub fn to_bytes(&self) -> (bytes: Vec<u8>)
        ensures
            bytes@ == self.bytes(),
    {
        let mut bytes: Vec<u8> = Vec::new();
        match self {
            IpAddress::V4(octets) => push_bytes(&mut bytes, array_as_slice(octets)),
            IpAddress::V6(octets) => push_bytes(&mut bytes, array_as_slice(octets)),
        }
        assert(bytes@ =~= self.bytes());
        bytes
    }
}

/// Where a peer can be reached.
#[derive(Clone, Copy, Debug, PartialEq, Eq)]
pub struct PeerAddress {
    pub ip: IpAddress,
    pub port: u16,
}

impl PeerAddress {
    /// Whether two addresses are the same address and port.
    pub fn same(&self, other: &PeerAddress) -> (same: bool)
        ensures
            same == (*self == *other),
    {
        let same_ip = match (&self.ip, &other.ip) {
            (IpAddress::V4(a), IpAddress::V4(b)) => same_octets(a, b),
            (IpAddress::V6(a), IpAddress::V6(b)) => same_octets(a, b),
            _ => false,
        };
        same_ip && self.port == other.port
    }
}

/// A participant of a swarm, as the tracker remembers it.
#[derive(Clone, Copy, Debug, PartialEq, Eq)]
pub struct Peer {
    /// The peer's identity within the torrent.
    pub peer_id: PeerId,
    pub address: PeerAddress,
    /// Whether the peer has the whole torrent.
    pub is_seeder: bool,
    /// The time after which the peer counts as gone.
    pub valid_until: u64,
}

/// What a peer reports of itself with an announce.
#[derive(Clone, Copy, Debug, PartialEq, Eq, Structural)]
pub enum AnnounceEvent {
    Started,
    Stopped,
    Completed,
    /// A regular announce, without an event.
    Update,
}

/// The identities of the peers, in their order.
pub open spec fn peer_ids(peers: Seq<Peer>) -> Seq<Seq<u8>> {
    Seq::new(peers.len(), |i: int| peers[i].peer_id@)
}

/// How many of the peers are seeders.
pub open spec fn count_seeders(peers: Seq<Peer>) -> nat
    decreases peers.len(),
{
    if peers.len() == 0 {
        0
    } else {
        count_seeders(peers.drop_last()) + if peers.last().is_seeder {
            1nat
        } else {
            0nat
        }
    }
}

/// Every peer has an address of the family.
pub open spec fn all_of_family(peers: Seq<Peer>, family: IpFamily) -> bool {
    forall|i: int| 0 <= i < peers.len() ==> (#[trigger] peers[i]).address.ip.family() == family
}

/// The peers of a torrent after an announce of `peer` with `event`.
///
/// `Stopped` removes the peer with that identity, if there is one: the last
/// peer takes its place. Any other event puts `peer` in the place of the peer
/// with that identity, or at the end if there is none.
pub open spec fn peers_after_announce(peers: Seq<Peer>, peer: Peer, event: AnnounceEvent) -> Seq<
    Peer,
> {
    let ids = peer_ids(peers);
    let id = peer.peer_id@;
    if event is Stopped {
        if ids.contains(id) {
            swap_removed(peers, ids.index_of(id))
        } else {
            peers
        }
    } else {
        if ids.contains(id) {
            peers.update(ids.index_of(id), peer)
        } else {
            peers.push(peer)
        }
    }
}

/// The peers whose `valid_until` does not lie before `now`, in their order.
pub open spec fn still_valid(peers: Seq<Peer>, now: u64) -> Seq<Peer>
    decreases peers.len(),
{
    if peers.len() == 0 {
        Seq::empty()
    } else if peers.last().valid_until >= now {
        still_valid(peers.drop_last(), now).push(peers.last())
    } else {
        still_valid(peers.drop_last(), now)
    }
}

/// The first `limit` of the peers that do not have the identity `requester`,
/// in their order.
pub open spec fn first_others(peers: Seq<Peer>, requester: Seq<u8>, limit: nat) -> Seq<Peer>
    decreases peers.len(),
{
    if peers.len() == 0 || limit == 0 {
        Seq::empty()
    } else if peers.first().peer_id@ == requester {
        first_others(peers.drop_first(), requester, limit)
    } else {
        seq![peers.first()] + first_others(peers.drop_first(), requester, (limit - 1) as nat)
    }
}

/// The peers in a round, beginning with the one at `start`.
pub open spec fn rotated(peers: Seq<Peer>, start: int) -> Seq<Peer> {
    peers.subrange(start, peers.len() as int) + peers.subrange(0, start)
}

/// The peers that an announce answers with: at most `limit` peers other than
/// the requester, taken in a round that begins `offset` places into the
/// sequence.
pub open spec fn selected_peers(peers: Seq<Peer>, requester: Seq<u8>, limit: nat, offset: nat) -> Seq<
    Peer,
> {
    if peers.len() == 0 {
        Seq::empty()
    } else {
        first_others(rotated(peers, (offset % peers.len()) as int), requester, limit)
    }
}

/// In a sequence of distinct identities, the place of an identity is the
/// place where it stands.
pub proof fn lemma_index_of_distinct(ids: Seq<Seq<u8>>, i: int)
    requires
        ids.no_duplicates(),
        0 <= i < ids.len(),
    ensures
        ids.contains(ids[i]),
        ids.index_of(ids[i]) == i,
{
}

/// The peers that are still valid are those of the peers that are, each
/// once for each time it stands among the peers, and no more than there
/// are peers.
pub proof fn lemma_still_valid(peers: Seq<Peer>, now: u64)
    ensures
        still_valid(peers, now).len() <= peers.len(),
        forall|peer: Peer| #[trigger]
            still_valid(peers, now).contains(peer) <==> peers.contains(peer) && peer.valid_until
                >= now,
        forall|i: int|
            0 <= i < still_valid(peers, now).len() ==> (#[trigger] still_valid(
                peers,
                now,
            )[i]).valid_until >= now,
        forall|id: Seq<u8>|
            peer_ids(still_valid(peers, now)).contains(id) ==> peer_ids(peers).contains(id),
        peer_ids(peers).no_duplicates() ==> peer_ids(still_valid(peers, now)).no_duplicates(),
    decreases peers.len(),
{
    let kept = still_valid(peers, now);
    if peers.len() > 0 {
        let rest = peers.drop_last();
        let last = peers.last();
        let inner = still_valid(rest, now);
        lemma_still_valid(rest, now);
        assert forall|peer: Peer| #[trigger] kept.contains(peer) <==> peers.contains(peer)
            && peer.valid_until >= now by {
            if kept.contains(peer) {
                let k = choose|k: int| 0 <= k < kept.len() && kept[k] == peer;
                if k < inner.len() {
                    assert(inner[k] == peer);
                    assert(inner.contains(peer));
                    let j = choose|j: int| 0 <= j < rest.len() && rest[j] == peer;
                    assert(peers[j] == peer);
                } else {
                    assert(peers[peers.len() - 1] == peer);
                }
            }
            if peers.contains(peer) && peer.valid_until >= now {
                let j = choose|j: int| 0 <= j < peers.len() && peers[j] == peer;
                if j < rest.len() {
                    assert(rest[j] == peer);
                    assert(rest.contains(peer));
                    assert(inner.contains(peer));
                    let k = choose|k: int| 0 <= k < inner.len() && inner[k] == peer;
                    assert(kept[k] == peer);
                } else {
                    assert(kept[kept.len() - 1] == peer);
                }
            }
        }
        assert forall|id: Seq<u8>| peer_ids(kept).contains(id) implies peer_ids(peers).contains(
            id,
        ) by {
            let k = choose|k: int| 0 <= k < peer_ids(kept).len() && peer_ids(kept)[k] == id;
            if k < inner.len() {
                assert(peer_ids(inner)[k] == id);
                assert(peer_ids(inner).contains(id));
                assert(peer_ids(rest).contains(id));
                let j = choose|j: int| 0 <= j < peer_ids(rest).len() && peer_ids(rest)[j] == id;
                assert(peer_ids(peers)[j] == peer_ids(rest)[j]);
            } else {
                assert(peer_ids(peers)[peers.len() - 1] == id);
            }
        }
        if peer_ids(peers).no_duplicates() {
            assert forall|a: int, b: int|
                0 <= a < rest.len() && 0 <= b < rest.len() && a != b implies peer_ids(rest)[a]
                != peer_ids(rest)[b] by {
                assert(peer_ids(peers)[a] != peer_ids(peers)[b]);
            }
            assert(peer_ids(rest).no_duplicates());
            assert forall|a: int, b: int|
                0 <= a < kept.len() && 0 <= b < kept.len() && a != b implies peer_ids(kept)[a]
                != peer_ids(kept)[b] by {
                if a < inner.len() && b < inner.len() {
                    assert(peer_ids(inner)[a] != peer_ids(inner)[b]);
                } else {
                    let low = if a < b {
                        a
                    } else {
                        b
                    };
                    assert(peer_ids(inner)[low] == peer_ids(kept)[low]);
                    assert(peer_ids(inner).contains(peer_ids(inner)[low]));
                    assert(peer_ids(rest).contains(peer_ids(inner)[low]));
                    let j = choose|j: int|
                        0 <= j < peer_ids(rest).len() && peer_ids(rest)[j] == peer_ids(inner)[low];
                    assert(peer_ids(peers)[j] != peer_ids(peers)[peers.len() - 1]);
                }
            }
        }
    } else {
        assert(peer_ids(kept) =~= Seq::<Seq<u8>>::empty());
    }
}

/// Seeders after a peer has joined at the end.
pub proof fn lemma_count_seeders_push(peers: Seq<Peer>, peer: Peer)
    ensures
        count_seeders(peers.push(peer)) == count_seeders(peers) + if peer.is_seeder {
            1nat
        } else {
            0nat
        },
{
    assert(peers.push(peer).drop_last() =~= peers);
}

/// There are no more seeders than peers.
pub proof fn lemma_count_seeders_bound(peers: Seq<Peer>)
    ensures
        count_seeders(peers) <= peers.len(),
    decreases peers.len(),
{
    if peers.len() > 0 {
        lemma_count_seeders_bound(peers.drop_last());
    }
}

/// Seeders after the peer at `i` has been replaced.
pub proof fn lemma_count_seeders_update(peers: Seq<Peer>, i: int, peer: Peer)
    requires
        0 <= i < peers.len(),
    ensures
        count_seeders(peers.update(i, peer)) + (if peers[i].is_seeder {
            1nat
        } else {
            0nat
        }) == count_seeders(peers) + if peer.is_seeder {
            1nat
        } else {
            0nat
        },
    decreases peers.len(),
{
    if i == peers.len() - 1 {
        assert(peers.update(i, peer).drop_last() =~= peers.drop_last());
    } else {
        lemma_count_seeders_update(peers.drop_last(), i, peer);
        assert(peers.update(i, peer).drop_last() =~= peers.drop_last().update(i, peer));
    }
}

/// Seeders after the peer at `i` has left.
pub proof fn lemma_count_seeders_swap_removed(peers: Seq<Peer>, i: int)
    requires
        0 <= i < peers.len(),
    ensures
        count_seeders(swap_removed(peers, i)) + (if peers[i].is_seeder {
            1nat
        } else {
            0nat
        }) == count_seeders(peers),
{
    lemma_count_seeders_update(peers, i, peers.last());
}

/// The peers that are selected stand among the peers, none of them has the
/// requester's identity, and there are at most `limit` of them.
pub proof fn lemma_first_others(peers: Seq<Peer>, requester: Seq<u8>, limit: nat)
    ensures
        first_others(peers, requester, limit).len() <= limit,
        first_others(peers, requester, limit).len() <= peers.len(),
        forall|i: int|
            0 <= i < first_others(peers, requester, limit).len() ==> peers.contains(
                #[trigger] first_others(peers, requester, limit)[i],
            ) && first_others(peers, requester, limit)[i].peer_id@ != requester,
    decreases peers.len(),
{
    if peers.len() == 0 || limit == 0 {
    } else {
        let rest = peers.drop_first();
        let lower = if peers.first().peer_id@ == requester {
            limit
        } else {
            (limit - 1) as nat
        };
        lemma_first_others(rest, requester, lower);
        let out = first_others(peers, requester, limit);
        assert forall|i: int| 0 <= i < out.len() implies peers.contains(#[trigger] out[i])
            && out[i].peer_id@ != requester by {
            if peers.first().peer_id@ == requester {
                let k = choose|k: int| 0 <= k < rest.len() && rest[k] == out[i];
                assert(peers[k + 1] == out[i]);
            } else if i == 0 {
                assert(peers[0] == out[i]);
            } else {
                let inner = first_others(rest, requester, lower);
                assert(out[i] == inner[i - 1]);
                let k = choose|k: int| 0 <= k < rest.len() && rest[k] == inner[i - 1];
                assert(peers[k + 1] == out[i]);
            }
        }
    }
}

/// The peers that an announce answers with stand among the torrent's peers,
/// none of them has the requester's identity, and there are at most `limit`
/// of them.
pub proof fn lemma_selected_peers(peers: Seq<Peer>, requester: Seq<u8>, limit: nat, offset: nat)
    ensures
        selected_peers(peers, requester, limit, offset).len() <= limit,
        selected_peers(peers, requester, limit, offset).len() <= peers.len(),
        forall|i: int|
            0 <= i < selected_peers(peers, requester, limit, offset).len() ==> peers.contains(
                #[trigger] selected_peers(peers, requester, limit, offset)[i],
            ) && selected_peers(peers, requester, limit, offset)[i].peer_id@ != requester,
{
    if peers.len() > 0 {
        let start = (offset % peers.len()) as int;
        let round = rotated(peers, start);
        lemma_first_others(round, requester, limit);
        let out = first_others(round, requester, limit);
        assert forall|i: int| 0 <= i < out.len() implies peers.contains(#[trigger] out[i]) by {
            let k = choose|k: int| 0 <= k < round.len() && round[k] == out[i];
            if k < peers.len() - start {
                assert(peers[start + k] == out[i]);
            } else {
                assert(peers[k - (peers.len() - start)] == out[i]);
            }
        }
    }
}

/// The peers that an announce answers with have addresses of the family of
/// the torrent: a requester over IPv4 gets IPv4 peers, one over IPv6 gets
/// IPv6 peers.
pub proof fn law_answer_is_of_one_family(
    peers: Seq<Peer>,
    family: IpFamily,
    requester: Seq<u8>,
    limit: nat,
    offset: nat,
)
    requires
        all_of_family(peers, family),
    ensures
        all_of_family(selected_peers(peers, requester, limit, offset), family),
{
    lemma_selected_peers(peers, requester, limit, offset);
    let answer = selected_peers(peers, requester, limit, offset);
    assert forall|i: int| 0 <= i < answer.len() implies (#[trigger] answer[i]).address.ip.family()
        == family by {
        let k = choose|k: int| 0 <= k < peers.len() && peers[k] == answer[i];
        assert(peers[k].address.ip.family() == family);
    }
}

/// The requester is never among the peers that its own announce is answered
/// with.
pub proof fn law_answer_leaves_out_the_requester(
    peers: Seq<Peer>,
    requester: Seq<u8>,
    limit: nat,
    offset: nat,
)
    ensures
        forall|i: int|
            0 <= i < selected_peers(peers, requester, limit, offset).len() ==> (
            #[trigger] selected_peers(peers, requester, limit, offset)[i]).peer_id@ != requester,
{
    lemma_selected_peers(peers, requester, limit, offset);
}

/// In a swarm without peers, an announce with `Stopped` followed by one with
/// `Started` leaves exactly one peer: one seeder or one leecher.
pub proof fn law_stopped_then_started_leaves_one_peer(stopping: Peer, starting: Peer)
    ensures
        peers_after_announce(
            peers_after_announce(Seq::empty(), stopping, AnnounceEvent::Stopped),
            starting,
            AnnounceEvent::Started,
        ) == seq![starting],
        count_seeders(seq![starting]) == if starting.is_seeder {
            1nat
        } else {
            0nat
        },
        seq![starting].len() - count_seeders(seq![starting]) == if starting.is_seeder {
            0int
        } else {
            1int
        },
{
    assert(seq![starting].drop_last() =~= Seq::<Peer>::empty());
    reveal_with_fuel(count_seeders, 2);
    let none = Seq::<Peer>::empty();
    assert(peer_ids(none) =~= Seq::<Seq<u8>>::empty());
    assert(!peer_ids(none).contains(stopping.peer_id@));
    assert(!peer_ids(none).contains(starting.peer_id@));
    assert(none.push(starting) =~= seq![starting]);
}

/// Once the peers whose `valid_until` lies before `now` have been cleaned
/// away, no announce is answered with such a peer.
pub proof fn law_answer_holds_no_expired_peer(
    peers: Seq<Peer>,
    announced: Peer,
    event: AnnounceEvent,
    limit: nat,
    offset: nat,
    now: u64,
)
    ensures
        forall|i: int|
            0 <= i < selected_peers(
                peers_after_announce(still_valid(peers, now), announced, event),
                announced.peer_id@,
                limit,
                offset,
            ).len() ==> (#[trigger] selected_peers(
                peers_after_announce(still_valid(peers, now), announced, event),
                announced.peer_id@,
                limit,
                offset,
            )[i]).valid_until >= now,
{
    lemma_still_valid(peers, now);
    lemma_answer_of_valid_peers(still_valid(peers, now), announced, event, limit, offset, now);
}

/// Where every peer is valid at `now`, so is every peer that an announce is
/// answered with.
proof fn lemma_answer_of_valid_peers(
    peers: Seq<Peer>,
    announced: Peer,
    event: AnnounceEvent,
    limit: nat,
    offset: nat,
    now: u64,
)
    requires
        forall|i: int| 0 <= i < peers.len() ==> (#[trigger] peers[i]).valid_until >= now,
    ensures
        forall|i: int|
            0 <= i < selected_peers(
                peers_after_announce(peers, announced, event),
                announced.peer_id@,
                limit,
                offset,
            ).len() ==> (#[trigger] selected_peers(
                peers_after_announce(peers, announced, event),
                announced.peer_id@,
                limit,
                offset,
            )[i]).valid_until >= now,
{
    let after = peers_after_announce(peers, announced, event);
    let answer = selected_peers(after, announced.peer_id@, limit, offset);
    lemma_selected_peers(after, announced.peer_id@, limit, offset);
    assert forall|i: int| 0 <= i < answer.len() implies (#[trigger] answer[i]).valid_until
        >= now by {
        let k = choose|k: int| 0 <= k < after.len() && after[k] == answer[i];
        let ids = peer_ids(peers);
        let id = announced.peer_id@;
        if !(event is Stopped) && !ids.contains(id) {
            if k < peers.len() {
                assert(after[k] == peers[k]);
            }
        } else if ids.contains(id) {
            let place = ids.index_of(id);
            if k == place && event is Stopped {
                assert(after[k] == peers[peers.len() - 1]);
            } else if k != place {
                assert(after[k] == peers[k]);
            }
        }
    }
}

} // verus!
