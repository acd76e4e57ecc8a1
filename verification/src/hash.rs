//! 256-bit digests and the hash function that produces them.

use sha3::{Digest, Keccak256};
use vstd::prelude::*;
use vstd::std_specs::cmp::PartialEqSpecImpl;

verus! {

/// A 256-bit digest, as thirty-two bytes.
#[derive(Clone, Copy, Debug, Eq, Hash)]
pub struct H256(pub [u8; 32]);

impl View for H256 {
    type V = Seq<u8>;

    open spec fn view(&self) -> Seq<u8> {
        self.0@
    }
}

impl PartialEq for H256 {
    /// Two digests are equal when all their bytes agree.
    fn eq(&self, other: &Self) -> (r: bool) {
        let mut i: usize = 0;
        while i < 32
            invariant
                i <= 32,
                forall|j: int| 0 <= j < i ==> self.0@[j] == other.0@[j],
            decreases 32 - i,
        {
            if self.0[i] != other.0[i] {
                return false;
            }
            i += 1;
        }
        assert(self.0@ =~= other.0@);
        true
    }
}

impl PartialEqSpecImpl for H256 {
    open spec fn obeys_eq_spec() -> bool {
        true
    }

    open spec fn eq_spec(&self, other: &Self) -> bool {
        self@ == other@
    }
}

/// A stored value: a string of bytes.
pub type DBValue = Vec<u8>;

/// The Keccak-256 digest of `data`, thirty-two bytes long.
pub uninterp spec fn keccak256(data: Seq<u8>) -> Seq<u8>;

/// The encoding of the empty value: the single byte `0x80`.
pub open spec fn null_rlp() -> Seq<u8> {
    seq![0x80u8]
}

/// The bytes of the Keccak-256 digest of the encoding of the empty value.
pub const SHA3_NULL_RLP: [u8; 32] = [
    0x56, 0xe8, 0x1f, 0x17, 0x1b, 0xcc, 0x55, 0xa6, 0xff, 0x83, 0x45, 0xe6, 0x92, 0xc0, 0xf8, 0x6e,
    0x5b, 0x48, 0xe0, 0x1b, 0x99, 0x6c, 0xad, 0xc0, 0x01, 0x62, 0x2f, 0xb5, 0xe3, 0x63, 0xb4, 0x21,
];

/// The digest of the encoding of the empty value, as a key of the store.
pub open spec fn sha3_null_rlp() -> Seq<u8> {
    SHA3_NULL_RLP@
}

/// Hashes `data` with `sha3::Keccak256::digest`.
///
/// Trusted: the thirty-two bytes that come back are the Keccak-256 digest of
/// `data`, the same for the same bytes on every call.
#[verifier::external_body]
pub(crate) fn keccak(data: &[u8]) -> (digest: H256)
    ensures
        digest@ == keccak256(data@),
{
    H256(Keccak256::digest(data).into())
}

/// Reads the constant `rlp::NULL_RLP`.
///
/// Trusted: the constant is the one-byte array `[0x80]`.
#[verifier::external_body]
pub(crate) fn null_rlp_bytes() -> (bytes: [u8; 1])
    ensures
        bytes@ == null_rlp(),
{
    rlp::NULL_RLP
}

impl H256 {
    /// The digest of the encoding of the empty value.
    pub fn null_rlp() -> (digest: H256)
        ensures
            digest@ == sha3_null_rlp(),
    {
        H256(SHA3_NULL_RLP)
    }

    /// Whether this is the digest of the encoding of the empty value.
    pub fn is_null_rlp(&self) -> (b: bool)
        ensures
            b == (self@ == sha3_null_rlp()),
    {
        *self == H256::null_rlp()
    }
}

/// Whether two byte strings hold the same bytes.
pub fn bytes_equal(a: &[u8], b: &[u8]) -> (same: bool)
    ensures
        same == (a@ == b@),
{
    if a.len() != b.len() {
        return false;
    }
    let mut i: usize = 0;
    while i < a.len()
        invariant
            i <= a@.len(),
            a@.len() == b@.len(),
            forall|j: int| 0 <= j < i ==> a@[j] == b@[j],
        decreases a@.len() - i,
    {
        if a[i] != b[i] {
            return false;
        }
        i += 1;
    }
    assert(a@ =~= b@);
    true
}

/// Whether `value` is the encoding of the empty value.
pub fn is_null_rlp(value: &[u8]) -> (b: bool)
    ensures
        b == (value@ == null_rlp()),
{
    let null = null_rlp_bytes();
    bytes_equal(value, null.as_slice())
}

/// The encoding of the empty value, as a value of its own.
pub fn null_rlp_value() -> (value: DBValue)
    ensures
        value@ == null_rlp(),
{
    let null = null_rlp_bytes();
    let mut value: DBValue = Vec::new();
    value.push(null[0]);
    assert(value@ =~= null_rlp());
    value
}

} // verus!
