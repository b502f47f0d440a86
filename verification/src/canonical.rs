//! The canonical codec: a fixed-width, big-endian byte form of each digest,
//! independent of host byte order, for cross-system comparison and
//! serialization. The encoding is a bijection between digests and byte
//! arrays, proved by the two round-trip lemmas per width.

use vstd::prelude::*;

verus! {

/// The four big-endian bytes of a 32-bit value.
pub open spec fn be_bytes32(v: u32) -> Seq<u8> {
    seq![
        (((v >> 24) & 0xff) as u8),
        (((v >> 16) & 0xff) as u8),
        (((v >> 8) & 0xff) as u8),
        ((v & 0xff) as u8),
    ]
}

/// The 32-bit value whose big-endian bytes are `b`.
pub open spec fn be_value32(b: Seq<u8>) -> u32
    recommends
        b.len() == 4,
{
    ((b[0] as u32) << 24) | ((b[1] as u32) << 16) | ((b[2] as u32) << 8) | (b[3] as u32)
}

/// The eight big-endian bytes of a 64-bit value.
pub open spec fn be_bytes64(v: u64) -> Seq<u8> {
    seq![
        (((v >> 56) & 0xff) as u8),
        (((v >> 48) & 0xff) as u8),
        (((v >> 40) & 0xff) as u8),
        (((v >> 32) & 0xff) as u8),
        (((v >> 24) & 0xff) as u8),
        (((v >> 16) & 0xff) as u8),
        (((v >> 8) & 0xff) as u8),
        ((v & 0xff) as u8),
    ]
}

/// The 64-bit value whose big-endian bytes are `b`.
pub open spec fn be_value64(b: Seq<u8>) -> u64
    recommends
        b.len() == 8,
{
    ((b[0] as u64) << 56) | ((b[1] as u64) << 48) | ((b[2] as u64) << 40) | ((b[3] as u64) << 32)
        | ((b[4] as u64) << 24) | ((b[5] as u64) << 16) | ((b[6] as u64) << 8) | (b[7] as u64)
}

/// Decoding the canonical bytes of `v` gives back `v`: the encoding loses
/// nothing.
pub proof fn lemma_canonical32_round_trip(v: u32)
    ensures
        be_value32(be_bytes32(v)) == v,
{
    assert((((((v >> 24) & 0xff) as u8) as u32) << 24) | (((((v >> 16) & 0xff) as u8) as u32)
        << 16) | (((((v >> 8) & 0xff) as u8) as u32) << 8) | (((v & 0xff) as u8) as u32) == v)
        by (bit_vector);
}

/// Encoding the value decoded from four bytes gives back those bytes: every
/// four-byte array is the canonical form of exactly one value.
pub proof fn lemma_canonical32_bytes_round_trip(b: Seq<u8>)
    requires
        b.len() == 4,
    ensures
        be_bytes32(be_value32(b)) == b,
{
    let b0 = b[0];
    let b1 = b[1];
    let b2 = b[2];
    let b3 = b[3];
    let v = be_value32(b);
    assert(((((b0 as u32) << 24) | ((b1 as u32) << 16) | ((b2 as u32) << 8) | (b3 as u32)) >> 24)
        & 0xff == b0) by (bit_vector);
    assert(((((b0 as u32) << 24) | ((b1 as u32) << 16) | ((b2 as u32) << 8) | (b3 as u32)) >> 16)
        & 0xff == b1) by (bit_vector);
    assert(((((b0 as u32) << 24) | ((b1 as u32) << 16) | ((b2 as u32) << 8) | (b3 as u32)) >> 8)
        & 0xff == b2) by (bit_vector);
    assert((((b0 as u32) << 24) | ((b1 as u32) << 16) | ((b2 as u32) << 8) | (b3 as u32)) & 0xff
        == b3) by (bit_vector);
    assert(be_bytes32(v) =~= b);
}

/// Decoding the canonical bytes of `v` gives back `v`: the encoding loses
/// nothing.
pub proof fn lemma_canonical64_round_trip(v: u64)
    ensures
        be_value64(be_bytes64(v)) == v,
{
    assert((((((v >> 56) & 0xff) as u8) as u64) << 56) | (((((v >> 48) & 0xff) as u8) as u64)
        << 48) | (((((v >> 40) & 0xff) as u8) as u64) << 40) | (((((v >> 32) & 0xff) as u8) as u64)
        << 32) | (((((v >> 24) & 0xff) as u8) as u64) << 24) | (((((v >> 16) & 0xff) as u8) as u64)
        << 16) | (((((v >> 8) & 0xff) as u8) as u64) << 8) | (((v & 0xff) as u8) as u64) == v)
        by (bit_vector);
}

/// Encoding the value decoded from eight bytes gives back those bytes:
/// every eight-byte array is the canonical form of exactly one value.
pub proof fn lemma_canonical64_bytes_round_trip(b: Seq<u8>)
    requires
        b.len() == 8,
    ensures
        be_bytes64(be_value64(b)) == b,
{
    let b0 = b[0];
    let b1 = b[1];
    let b2 = b[2];
    let b3 = b[3];
    let b4 = b[4];
    let b5 = b[5];
    let b6 = b[6];
    let b7 = b[7];
    let v = be_value64(b);
    assert(v == ((b0 as u64) << 56) | ((b1 as u64) << 48) | ((b2 as u64) << 40) | ((b3 as u64)
        << 32) | ((b4 as u64) << 24) | ((b5 as u64) << 16) | ((b6 as u64) << 8) | (b7 as u64));
    assert((((((b0 as u64) << 56) | ((b1 as u64) << 48) | ((b2 as u64) << 40) | ((b3 as u64) << 32)
        | ((b4 as u64) << 24) | ((b5 as u64) << 16) | ((b6 as u64) << 8) | (b7 as u64)) >> 56)
        & 0xff == b0) && (((((b0 as u64) << 56) | ((b1 as u64) << 48) | ((b2 as u64) << 40) | ((
    b3 as u64) << 32) | ((b4 as u64) << 24) | ((b5 as u64) << 16) | ((b6 as u64) << 8) | (
    b7 as u64)) >> 48) & 0xff == b1) && (((((b0 as u64) << 56) | ((b1 as u64) << 48) | ((b2 as u64)
        << 40) | ((b3 as u64) << 32) | ((b4 as u64) << 24) | ((b5 as u64) << 16) | ((b6 as u64)
        << 8) | (b7 as u64)) >> 40) & 0xff == b2) && (((((b0 as u64) << 56) | ((b1 as u64) << 48)
        | ((b2 as u64) << 40) | ((b3 as u64) << 32) | ((b4 as u64) << 24) | ((b5 as u64) << 16) | (
    (b6 as u64) << 8) | (b7 as u64)) >> 32) & 0xff == b3)) by (bit_vector);
    assert((((((b0 as u64) << 56) | ((b1 as u64) << 48) | ((b2 as u64) << 40) | ((b3 as u64) << 32)
        | ((b4 as u64) << 24) | ((b5 as u64) << 16) | ((b6 as u64) << 8) | (b7 as u64)) >> 24)
        & 0xff == b4) && (((((b0 as u64) << 56) | ((b1 as u64) << 48) | ((b2 as u64) << 40) | ((
    b3 as u64) << 32) | ((b4 as u64) << 24) | ((b5 as u64) << 16) | ((b6 as u64) << 8) | (
    b7 as u64)) >> 16) & 0xff == b5) && (((((b0 as u64) << 56) | ((b1 as u64) << 48) | ((b2 as u64)
        << 40) | ((b3 as u64) << 32) | ((b4 as u64) << 24) | ((b5 as u64) << 16) | ((b6 as u64)
        << 8) | (b7 as u64)) >> 8) & 0xff == b6) && (((((b0 as u64) << 56) | ((b1 as u64) << 48) | (
    (b2 as u64) << 40) | ((b3 as u64) << 32) | ((b4 as u64) << 24) | ((b5 as u64) << 16) | ((
    b6 as u64) << 8) | (b7 as u64)) & 0xff == b7))) by (bit_vector);
    assert(be_bytes64(v) =~= b);
}

/// Canonical big-endian form of a 32-bit digest. Its view is the four
/// canonical bytes.
#[derive(Debug)]
pub struct Hash32 {
    digest: [u8; 4],
}

impl View for Hash32 {
    type V = Seq<u8>;

    closed spec fn view(&self) -> Seq<u8> {
        self.digest@
    }
}

impl Hash32 {
    /// The canonical bytes of the digest.
    pub fn bytes(&self) -> (r: &[u8; 4])
        ensures
            r@ == self@,
    {
        &self.digest
    }

    /// The digest as an integer, decoded from the canonical bytes.
    pub fn value(&self) -> (r: u32)
        ensures
            r == be_value32(self@),
    {
        ((self.digest[0] as u32) << 24) | ((self.digest[1] as u32) << 16) | ((self.digest[2] as u32)
            << 8) | (self.digest[3] as u32)
    }
}

impl From<u32> for Hash32 {
    /// Encodes a 32-bit digest in canonical form.
    fn from(val: u32) -> (r: Hash32) {
        let b0 = ((val >> 24) & 0xff) as u8;
        let b1 = ((val >> 16) & 0xff) as u8;
        let b2 = ((val >> 8) & 0xff) as u8;
        let b3 = (val & 0xff) as u8;
        let r = Hash32 { digest: [b0, b1, b2, b3] };
        proof {
            assert(r@ =~= be_bytes32(val));
        }
        r
    }
}

impl vstd::std_specs::convert::FromSpecImpl<u32> for Hash32 {
    closed spec fn obeys_from_spec() -> bool {
        true
    }

    closed spec fn from_spec(val: u32) -> Hash32 {
        Hash32 {
            digest: [
                (((val >> 24) & 0xff) as u8),
                (((val >> 16) & 0xff) as u8),
                (((val >> 8) & 0xff) as u8),
                ((val & 0xff) as u8),
            ],
        }
    }
}

impl From<[u8; 4]> for Hash32 {
    /// Wraps four canonical bytes as a digest form.
    fn from(val: [u8; 4]) -> (r: Hash32) {
        Hash32 { digest: val }
    }
}

impl vstd::std_specs::convert::FromSpecImpl<[u8; 4]> for Hash32 {
    closed spec fn obeys_from_spec() -> bool {
        true
    }

    closed spec fn from_spec(val: [u8; 4]) -> Hash32 {
        Hash32 { digest: val }
    }
}

/// Canonical big-endian form of a 64-bit digest. Its view is the eight
/// canonical bytes.
#[derive(Debug)]
pub struct Hash64 {
    digest: [u8; 8],
}

impl View for Hash64 {
    type V = Seq<u8>;

    closed spec fn view(&self) -> Seq<u8> {
        self.digest@
    }
}

impl Hash64 {
    /// The canonical bytes of the digest.
    pub fn bytes(&self) -> (r: &[u8; 8])
        ensures
            r@ == self@,
    {
        &self.digest
    }

    /// The digest as an integer, decoded from the canonical bytes.
    pub fn value(&self) -> (r: u64)
        ensures
            r == be_value64(self@),
    {
        ((self.digest[0] as u64) << 56) | ((self.digest[1] as u64) << 48) | ((self.digest[2] as u64)
            << 40) | ((self.digest[3] as u64) << 32) | ((self.digest[4] as u64) << 24) | ((
        self.digest[5] as u64) << 16) | ((self.digest[6] as u64) << 8) | (self.digest[7] as u64)
    }
}

impl From<u64> for Hash64 {
    /// Encodes a 64-bit digest in canonical form.
    fn from(val: u64) -> (r: Hash64) {
        let b0 = ((val >> 56) & 0xff) as u8;
        let b1 = ((val >> 48) & 0xff) as u8;
        let b2 = ((val >> 40) & 0xff) as u8;
        let b3 = ((val >> 32) & 0xff) as u8;
        let b4 = ((val >> 24) & 0xff) as u8;
        let b5 = ((val >> 16) & 0xff) as u8;
        let b6 = ((val >> 8) & 0xff) as u8;
        let b7 = (val & 0xff) as u8;
        let r = Hash64 { digest: [b0, b1, b2, b3, b4, b5, b6, b7] };
        proof {
            assert(r@ =~= be_bytes64(val));
        }
        r
    }
}

impl vstd::std_specs::convert::FromSpecImpl<u64> for Hash64 {
    closed spec fn obeys_from_spec() -> bool {
        true
    }

    closed spec fn from_spec(val: u64) -> Hash64 {
        Hash64 {
            digest: [
                (((val >> 56) & 0xff) as u8),
                (((val >> 48) & 0xff) as u8),
                (((val >> 40) & 0xff) as u8),
                (((val >> 32) & 0xff) as u8),
                (((val >> 24) & 0xff) as u8),
                (((val >> 16) & 0xff) as u8),
                (((val >> 8) & 0xff) as u8),
                ((val & 0xff) as u8),
            ],
        }
    }
}

impl From<[u8; 8]> for Hash64 {
    /// Wraps eight canonical bytes as a digest form.
    fn from(val: [u8; 8]) -> (r: Hash64) {
        Hash64 { digest: val }
    }
}

impl vstd::std_specs::convert::FromSpecImpl<[u8; 8]> for Hash64 {
    closed spec fn obeys_from_spec() -> bool {
        true
    }

    closed spec fn from_spec(val: [u8; 8]) -> Hash64 {
        Hash64 { digest: val }
    }
}

/// What `Hash32::from` on an integer carries: exactly the big-endian bytes
/// of that integer.
pub proof fn lemma_hash32_from_value(val: u32)
    ensures
        (<Hash32 as vstd::std_specs::convert::FromSpec<u32>>::from_spec(val))@ == be_bytes32(val),
        <Hash32 as vstd::std_specs::convert::FromSpec<u32>>::obeys_from_spec(),
{
    assert((<Hash32 as vstd::std_specs::convert::FromSpec<u32>>::from_spec(val))@ =~= be_bytes32(
        val,
    ));
}

/// What `Hash32::from` on a byte array carries: exactly those bytes.
pub proof fn lemma_hash32_from_bytes(val: [u8; 4])
    ensures
        (<Hash32 as vstd::std_specs::convert::FromSpec<[u8; 4]>>::from_spec(val))@ == val@,
        <Hash32 as vstd::std_specs::convert::FromSpec<[u8; 4]>>::obeys_from_spec(),
{
}

/// What `Hash64::from` on an integer carries: exactly the big-endian bytes
/// of that integer.
pub proof fn lemma_hash64_from_value(val: u64)
    ensures
        (<Hash64 as vstd::std_specs::convert::FromSpec<u64>>::from_spec(val))@ == be_bytes64(val),
        <Hash64 as vstd::std_specs::convert::FromSpec<u64>>::obeys_from_spec(),
{
    assert((<Hash64 as vstd::std_specs::convert::FromSpec<u64>>::from_spec(val))@ =~= be_bytes64(
        val,
    ));
}

/// What `Hash64::from` on a byte array carries: exactly those bytes.
pub proof fn lemma_hash64_from_bytes(val: [u8; 8])
    ensures
        (<Hash64 as vstd::std_specs::convert::FromSpec<[u8; 8]>>::from_spec(val))@ == val@,
        <Hash64 as vstd::std_specs::convert::FromSpec<[u8; 8]>>::obeys_from_spec(),
{
}

} // verus!
