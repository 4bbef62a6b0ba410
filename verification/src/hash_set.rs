//! A set of 20-byte identifiers kept in a `hashbrown::HashSet`.

use vstd::prelude::*;

verus! {

/// A `hashbrown::HashSet` of 20-byte arrays.
///
/// The set itself is opaque to the verifier: all that is known of it is what
/// the methods below state of [`id_set_members`].
#[verifier::external_body]
pub struct IdSet {
    inner: hashbrown::HashSet<[u8; 20]>,
}

/// The members of an [`IdSet`], each as the sequence of its 20 bytes.
pub uninterp spec fn id_set_members(set: IdSet) -> Set<Seq<u8>>;

impl View for IdSet {
    type V = Set<Seq<u8>>;

    open spec fn view(&self) -> Set<Seq<u8>> {
        id_set_members(*self)
    }
}

impl IdSet {
    /// `hashbrown::HashSet::new`: the new set has no members.
    #[verifier::external_body]
    pub(crate) fn new() -> (set: IdSet)
        ensures
            id_set_members(set) == Set::<Seq<u8>>::empty(),
    {
        IdSet { inner: hashbrown::HashSet::new() }
    }

    /// `hashbrown::HashSet::insert`: the value joins the members, the others
    /// stay, and the result tells whether the value was absent before.
    #[verifier::external_body]
    pub(crate) fn insert(&mut self, value: [u8; 20]) -> (fresh: bool)
        ensures
            id_set_members(*final(self)) == id_set_members(*old(self)).insert(value@),
            fresh == !id_set_members(*old(self)).contains(value@),
    {
        self.inner.insert(value)
    }

    /// `hashbrown::HashSet::contains`: whether the value is a member.
    #[verifier::external_body]
    pub(crate) fn contains(&self, value: &[u8; 20]) -> (found: bool)
        ensures
            found == id_set_members(*self).contains(value@),
    {
        self.inner.contains(value)
    }
}

} // verus!
