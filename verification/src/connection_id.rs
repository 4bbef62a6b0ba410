//! The connection-id challenge of the UDP protocol.
//!
//! A connection id is a keyed tag of the client's address, cut to 64 bits. A
//! client can only present the id that was sent to the address it claims, so
//! it must be able to receive there. The tracker keeps nothing per client:
//! it holds two secrets, the current one and the one before, and accepts the
//! ids made under either.

use crate::be::{be_u64, read_u64};
use crate::peer::IpAddress;
use hmac::Mac;
use vstd::array::array_as_slice;
use vstd::prelude::*;

verus! {

/// The HMAC-SHA-256 tag of a message under a key: 32 bytes.
pub uninterp spec fn hmac_sha256(key: Seq<u8>, message: Seq<u8>) -> Seq<u8>;

/// `hmac::Hmac<sha2::Sha256>`, keyed with `new_from_slice`, fed with `update`
/// and closed with `finalize`: the tag of the message under the key. The tag
/// depends on the key and the message alone.
#[verifier::external_body]
fn hmac_sha256_tag(key: &[u8; 32], message: &[u8]) -> (tag: [u8; 32])
    ensures
        tag@ == hmac_sha256(key@, message@),
{
    let mut mac = hmac::Hmac::<sha2::Sha256>::new_from_slice(key).expect(
        "HMAC takes a key of any length",
    );
    mac.update(message);
    let mut tag = [0u8; 32];
    tag.copy_from_slice(&mac.finalize().into_bytes());
    tag
}

/// The token that accompanies every request after `connect`.
#[derive(Clone, Copy, Debug, PartialEq, Eq)]
pub struct ConnectionId(pub u64);

/// The connection id of an address under a secret: the first eight bytes of
/// the tag of the address, as a number. The port is no part of it.
pub open spec fn connection_id_under(secret: Seq<u8>, ip: IpAddress) -> u64 {
    be_u64(hmac_sha256(secret, ip.bytes()).subrange(0, 8))
}

/// Whether two numbers are equal, found without a branch on their bits.
pub fn constant_time_eq(a: u64, b: u64) -> (equal: bool)
    ensures
        equal == (a == b),
{
    let difference = a ^ b;
    assert((a ^ b) == 0 <==> a == b) by (bit_vector);
    difference == 0
}

/// Whether the secret is to be replaced: half the lifetime of a connection
/// id has passed since the last replacement.
pub fn rotation_due(last_rotation: u64, now: u64, connection_id_lifetime: u64) -> (due: bool)
    ensures
        due == (now >= last_rotation && now - last_rotation >= connection_id_lifetime / 2),
{
    now >= last_rotation && now - last_rotation >= connection_id_lifetime / 2
}

/// Issues and checks connection ids.
#[derive(Clone, Copy)]
pub struct ConnectionValidator {
    current: [u8; 32],
    previous: [u8; 32],
}

impl ConnectionValidator {
    /// The secret under which ids are issued.
    pub closed spec fn current(&self) -> Seq<u8> {
        self.current@
    }

    /// The secret that was current before the last rotation.
    pub closed spec fn previous(&self) -> Seq<u8> {
        self.previous@
    }

    /// Whether an id is one that was made for the address under the current
    /// or the previous secret.
    pub open spec fn accepts(&self, id: u64, ip: IpAddress) -> bool {
        id == connection_id_under(self.current(), ip) || id == connection_id_under(
            self.previous(),
            ip,
        )
    }

    /// A validator that starts with one secret.
    pub fn new(secret: [u8; 32]) -> (validator: ConnectionValidator)
        ensures
            validator.current() == secret@,
            validator.previous() == secret@,
    {
        ConnectionValidator { current: secret, previous: secret }
    }

    /// The connection id for a client at this address.
    pub fn issue(&self, ip: &IpAddress) -> (id: ConnectionId)
        ensures
            id.0 == connection_id_under(self.current(), *ip),
            self.accepts(id.0, *ip),
    {
        ConnectionId(token(&self.current, ip))
    }

    /// Whether the id was issued to this address under the current or the
    /// previous secret.
    pub fn verify(&self, id: ConnectionId, ip: &IpAddress) -> (valid: bool)
        ensures
            valid == self.accepts(id.0, *ip),
    {
        let under_current = constant_time_eq(id.0, token(&self.current, ip));
        let under_previous = constant_time_eq(id.0, token(&self.previous, ip));
        under_current || under_previous
    }

    /// Takes a fresh secret: the current one becomes the previous one, and
    /// the one before that is forgotten.
    pub fn rotate(&mut self, fresh: [u8; 32])
        ensures
            final(self).current() == fresh@,
            final(self).previous() == old(self).current(),
    {
        self.previous = self.current;
        self.current = fresh;
    }
}

/// The connection id of an address under a secret.
fn token(secret: &[u8; 32], ip: &IpAddress) -> (id: u64)
    ensures
        id == connection_id_under(secret@, *ip),
{
    let message = ip.to_bytes();
    let tag = hmac_sha256_tag(secret, message.as_slice());
    proof {
        assert(array_as_slice(&tag)@.subrange(0, 8) =~= tag@.subrange(0, 8));
    }
    read_u64(array_as_slice(&tag), 0)
}

/// An id stays valid through one rotation of the secret: what was issued
/// under a secret is accepted while that secret is the current or the
/// previous one.
pub proof fn law_id_survives_one_rotation(
    issuer: ConnectionValidator,
    rotated: ConnectionValidator,
    ip: IpAddress,
)
    requires
        rotated.previous() == issuer.current(),
    ensures
        issuer.accepts(connection_id_under(issuer.current(), ip), ip),
        rotated.accepts(connection_id_under(issuer.current(), ip), ip),
{
}

/// An id is accepted for an address only if it is the one that the current
/// or the previous secret gives for that address: not an id made for another
/// address, nor one made under a secret that has been rotated out, unless it
/// happens to be the same number.
pub proof fn law_only_issued_ids_are_accepted(
    validator: ConnectionValidator,
    id: u64,
    ip: IpAddress,
)
    requires
        id != connection_id_under(validator.current(), ip),
        id != connection_id_under(validator.previous(), ip),
    ensures
        !validator.accepts(id, ip),
{
}

} // verus!
