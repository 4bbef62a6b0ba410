//! Integers and identifiers as bytes in network order, the most significant
//! byte first.

use vstd::prelude::*;

verus! {

/// The number that two bytes spell.
#[verifier::opaque]
pub open spec fn be_u16(bytes: Seq<u8>) -> u16
    recommends
        bytes.len() == 2,
{
    (bytes[0] * 0x100 + bytes[1]) as u16
}

/// The number that four bytes spell.
#[verifier::opaque]
pub open spec fn be_u32(bytes: Seq<u8>) -> u32
    recommends
        bytes.len() == 4,
{
    (bytes[0] * 0x100_0000 + bytes[1] * 0x1_0000 + bytes[2] * 0x100 + bytes[3]) as u32
}

/// The number that eight bytes spell.
#[verifier::opaque]
pub open spec fn be_u64(bytes: Seq<u8>) -> u64
    recommends
        bytes.len() == 8,
{
    (be_u32(bytes.subrange(0, 4)) * 0x1_0000_0000 + be_u32(bytes.subrange(4, 8))) as u64
}

/// The two bytes of a number.
#[verifier::opaque]
pub open spec fn u16_bytes(value: u16) -> Seq<u8> {
    seq![(value / 0x100) as u8, (value % 0x100) as u8]
}

/// The four bytes of a number.
#[verifier::opaque]
pub open spec fn u32_bytes(value: u32) -> Seq<u8> {
    seq![
        (value / 0x100_0000) as u8,
        (value / 0x1_0000 % 0x100) as u8,
        (value / 0x100 % 0x100) as u8,
        (value % 0x100) as u8,
    ]
}

/// The eight bytes of a number.
#[verifier::opaque]
pub open spec fn u64_bytes(value: u64) -> Seq<u8> {
    u32_bytes((value / 0x1_0000_0000) as u32) + u32_bytes((value % 0x1_0000_0000) as u32)
}

/// The signed number that has the same four bytes in two's complement.
pub open spec fn signed(value: u32) -> i32 {
    if value < 0x8000_0000 {
        value as i32
    } else {
        (value - 0x1_0000_0000) as i32
    }
}

/// The unsigned number that has the same four bytes in two's complement.
pub open spec fn unsigned(value: i32) -> u32 {
    if value >= 0 {
        value as u32
    } else {
        (value + 0x1_0000_0000) as u32
    }
}

/// A number has two bytes, and they spell it.
pub proof fn lemma_u16_bytes(value: u16)
    ensures
        u16_bytes(value).len() == 2,
        be_u16(u16_bytes(value)) == value,
{
    reveal(u16_bytes);
    reveal(be_u16);
}

/// Two bytes are the bytes of the number they spell.
pub proof fn lemma_be_u16(bytes: Seq<u8>)
    requires
        bytes.len() == 2,
    ensures
        u16_bytes(be_u16(bytes)) == bytes,
{
    reveal(u16_bytes);
    reveal(be_u16);
    assert(u16_bytes(be_u16(bytes)) =~= bytes);
}

/// A number has four bytes, and they spell it.
pub proof fn lemma_u32_bytes(value: u32)
    ensures
        u32_bytes(value).len() == 4,
        be_u32(u32_bytes(value)) == value,
{
    reveal(u32_bytes);
    reveal(be_u32);
    assert((value / 0x100_0000) * 0x100_0000 + (value / 0x1_0000 % 0x100) * 0x1_0000 + (value
        / 0x100 % 0x100) * 0x100 + value % 0x100 == value) by (bit_vector);
}

/// Four bytes are the bytes of the number they spell.
pub proof fn lemma_be_u32(bytes: Seq<u8>)
    requires
        bytes.len() == 4,
    ensures
        u32_bytes(be_u32(bytes)) == bytes,
{
    reveal(u32_bytes);
    reveal(be_u32);
    let b0 = bytes[0];
    let b1 = bytes[1];
    let b2 = bytes[2];
    let b3 = bytes[3];
    let value: u32 = be_u32(bytes);
    assert(value == b0 * 0x100_0000 + b1 * 0x1_0000 + b2 * 0x100 + b3);
    assert(value / 0x100_0000 == b0 && value / 0x1_0000 % 0x100 == b1 && value / 0x100 % 0x100 == b2
        && value % 0x100 == b3) by (bit_vector)
        requires
            value == b0 * 0x100_0000 + b1 * 0x1_0000 + b2 * 0x100 + b3,
    ;
    assert(u32_bytes(value) =~= bytes);
}

/// A number has eight bytes, and they spell it.
pub proof fn lemma_u64_bytes(value: u64)
    ensures
        u64_bytes(value).len() == 8,
        be_u64(u64_bytes(value)) == value,
{
    reveal(u64_bytes);
    reveal(be_u64);
    let high = (value / 0x1_0000_0000) as u32;
    let low = (value % 0x1_0000_0000) as u32;
    lemma_u32_bytes(high);
    lemma_u32_bytes(low);
    assert(u64_bytes(value).subrange(0, 4) =~= u32_bytes(high));
    assert(u64_bytes(value).subrange(4, 8) =~= u32_bytes(low));
}

/// Eight bytes are the bytes of the number they spell.
pub proof fn lemma_be_u64(bytes: Seq<u8>)
    requires
        bytes.len() == 8,
    ensures
        u64_bytes(be_u64(bytes)) == bytes,
{
    reveal(u64_bytes);
    reveal(be_u64);
    lemma_be_u32(bytes.subrange(0, 4));
    lemma_be_u32(bytes.subrange(4, 8));
    let high = be_u32(bytes.subrange(0, 4));
    let low = be_u32(bytes.subrange(4, 8));
    let number = be_u64(bytes);
    assert(number == high * 0x1_0000_0000 + low);
    assert((number / 0x1_0000_0000) as u32 == high);
    assert((number % 0x1_0000_0000) as u32 == low);
    assert(bytes.subrange(0, 4) + bytes.subrange(4, 8) =~= bytes);
}

/// The signed and the unsigned reading of four bytes determine each other.
pub proof fn lemma_signed_round_trip(value: u32, number: i32)
    ensures
        unsigned(signed(value)) == value,
        signed(unsigned(number)) == number,
{
}

/// Reads two bytes at `at`.
pub fn read_u16(bytes: &[u8], at: usize) -> (value: u16)
    requires
        at + 2 <= bytes@.len(),
    ensures
        value == be_u16(bytes@.subrange(at as int, at + 2)),
{
    reveal(be_u16);
    let high: u16 = bytes[at] as u16;
    let low: u16 = bytes[at + 1] as u16;
    high * 0x100 + low
}

/// Reads four bytes at `at`.
pub fn read_u32(bytes: &[u8], at: usize) -> (value: u32)
    requires
        at + 4 <= bytes@.len(),
    ensures
        value == be_u32(bytes@.subrange(at as int, at + 4)),
{
    reveal(be_u32);
    let b0: u32 = bytes[at] as u32;
    let b1: u32 = bytes[at + 1] as u32;
    let b2: u32 = bytes[at + 2] as u32;
    let b3: u32 = bytes[at + 3] as u32;
    b0 * 0x100_0000 + b1 * 0x1_0000 + b2 * 0x100 + b3
}

/// Reads eight bytes at `at`.
pub fn read_u64(bytes: &[u8], at: usize) -> (value: u64)
    requires
        at + 8 <= bytes@.len(),
    ensures
        value == be_u64(bytes@.subrange(at as int, at + 8)),
{
    reveal(be_u64);
    assert(bytes@.len() == bytes.len());
    let high: u64 = read_u32(bytes, at) as u64;
    let low: u64 = read_u32(bytes, at + 4) as u64;
    proof {
        let eight = bytes@.subrange(at as int, at + 8);
        assert(eight.subrange(0, 4) =~= bytes@.subrange(at as int, at + 4));
        assert(eight.subrange(4, 8) =~= bytes@.subrange(at + 4, at + 8));
    }
    high * 0x1_0000_0000 + low
}

/// Reads the signed number in the four bytes at `at`.
pub fn read_i32(bytes: &[u8], at: usize) -> (value: i32)
    requires
        at + 4 <= bytes@.len(),
    ensures
        value == signed(be_u32(bytes@.subrange(at as int, at + 4))),
{
    let raw = read_u32(bytes, at);
    if raw < 0x8000_0000 {
        raw as i32
    } else {
        let below: i32 = (0xFFFF_FFFF - raw) as i32;
        -below - 1
    }
}

/// Reads the `N` bytes at `at`.
pub fn read_array<const N: usize>(bytes: &[u8], at: usize) -> (array: [u8; N])
    requires
        at + N <= bytes@.len(),
    ensures
        array@ == bytes@.subrange(at as int, at + N),
{
    assert(bytes@.len() == bytes.len());
    let mut array = [0u8; N];
    let mut i: usize = 0;
    while i < N
        invariant
            i <= N,
            at + N <= bytes@.len() <= usize::MAX,
            array@.len() == N,
            forall|j: int| 0 <= j < i ==> array@[j] == bytes@[at + j],
        decreases N - i,
    {
        array[i] = bytes[at + i];
        i += 1;
    }
    assert(array@ =~= bytes@.subrange(at as int, at + N));
    array
}

/// Reads the twenty bytes at `at`.
pub fn read_id(bytes: &[u8], at: usize) -> (id: [u8; 20])
    requires
        at + 20 <= bytes@.len(),
    ensures
        id@ == bytes@.subrange(at as int, at + 20),
{
    read_array::<20>(bytes, at)
}

/// Appends the two bytes of a number.
pub fn push_u16(out: &mut Vec<u8>, value: u16)
    ensures
        final(out)@ == old(out)@ + u16_bytes(value),
{
    reveal(u16_bytes);
    out.push((value / 0x100) as u8);
    out.push((value % 0x100) as u8);
    assert(out@ =~= old(out)@ + u16_bytes(value));
}

/// Appends the four bytes of a number.
pub fn push_u32(out: &mut Vec<u8>, value: u32)
    ensures
        final(out)@ == old(out)@ + u32_bytes(value),
{
    reveal(u32_bytes);
    out.push((value / 0x100_0000) as u8);
    out.push((value / 0x1_0000 % 0x100) as u8);
    out.push((value / 0x100 % 0x100) as u8);
    out.push((value % 0x100) as u8);
    assert(out@ =~= old(out)@ + u32_bytes(value));
}

/// Appends the eight bytes of a number.
pub fn push_u64(out: &mut Vec<u8>, value: u64)
    ensures
        final(out)@ == old(out)@ + u64_bytes(value),
{
    reveal(u64_bytes);
    push_u32(out, (value / 0x1_0000_0000) as u32);
    push_u32(out, (value % 0x1_0000_0000) as u32);
    assert(out@ =~= old(out)@ + u64_bytes(value));
}

/// Appends the four bytes of a signed number.
pub fn push_i32(out: &mut Vec<u8>, value: i32)
    ensures
        final(out)@ == old(out)@ + u32_bytes(unsigned(value)),
{
    let raw: u32 = if value >= 0 {
        value as u32
    } else {
        0xFFFF_FFFF - ((-(value + 1)) as u32)
    };
    push_u32(out, raw);
}

/// Appends bytes as they are.
pub fn push_bytes(out: &mut Vec<u8>, bytes: &[u8])
    ensures
        final(out)@ == old(out)@ + bytes@,
{
    let mut i: usize = 0;
    while i < bytes.len()
        invariant
            i <= bytes@.len(),
            out@ == old(out)@ + bytes@.subrange(0, i as int),
        decreases bytes@.len() - i,
    {
        out.push(bytes[i]);
        assert(out@ =~= old(out)@ + bytes@.subrange(0, i + 1));
        i += 1;
    }
    assert(bytes@.subrange(0, bytes@.len() as int) =~= bytes@);
}

} // verus!
