//! The 20-byte identifiers of torrents and peers.

use vstd::prelude::*;

verus! {

/// Whether two arrays hold the same bytes.
pub fn same_octets<const N: usize>(a: &[u8; N], b: &[u8; N]) -> (same: bool)
    ensures
        same == (a@ == b@),
        same == (*a == *b),
{
    let mut i: usize = 0;
    while i < N
        invariant
            i <= N,
            a@.len() == N,
            b@.len() == N,
            forall|j: int| 0 <= j < i ==> a@[j] == b@[j],
        decreases N - i,
    {
        if a[i] != b[i] {
            assert(a@[i as int] != b@[i as int]);
            return false;
        }
        i += 1;
    }
    assert(a@ =~= b@);
    assert(*a == *b);
    true
}

/// Identifier of a torrent. Two info-hashes are the same torrent when their
/// bytes are equal.
#[derive(Clone, Copy, Debug, PartialEq, Eq, Hash)]
pub struct InfoHash(pub [u8; 20]);

impl View for InfoHash {
    type V = Seq<u8>;

    open spec fn view(&self) -> Seq<u8> {
        self.0@
    }
}

impl InfoHash {
    /// Byte-wise equality.
    pub fn same(&self, other: &InfoHash) -> (same: bool)
        ensures
            same == (self@ == other@),
    {
        same_octets(&self.0, &other.0)
    }
}

/// Identifier that a peer gives itself. It is taken as it comes.
#[derive(Clone, Copy, Debug, PartialEq, Eq, Hash)]
pub struct PeerId(pub [u8; 20]);

impl View for PeerId {
    type V = Seq<u8>;

    open spec fn view(&self) -> Seq<u8> {
        self.0@
    }
}

impl PeerId {
    /// Byte-wise equality.
    pub fn same(&self, other: &PeerId) -> (same: bool)
        ensures
            same == (self@ == other@),
    {
        same_octets(&self.0, &other.0)
    }
}

} // verus!
