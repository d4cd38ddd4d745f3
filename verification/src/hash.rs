//! SHA-256 digests over canonical JSON bytes.

use vstd::prelude::*;

use sha2::Digest;

use crate::json::JsonValue;
use crate::json::canon;

verus! {

/// The 32-byte output of SHA-256 on the given bytes: a function of the
/// input alone, left uninterpreted here and tied to the implementation by
/// the wrapper below.
pub uninterp spec fn sha256_of(data: Seq<u8>) -> Seq<u8>;

/// Relies on sha2's SHA-256 implementation: the digest depends on the
/// input bytes alone and is always 32 bytes long.
#[verifier::external_body]
pub fn sha256(data: &[u8]) -> (r: Vec<u8>)
    ensures
        r@ == sha256_of(data@),
        r@.len() == 32,
{
    sha2::Sha256::digest(data).to_vec()
}

/// The canonical hash of a JSON value: SHA-256 over the UTF-8 bytes of
/// its canonical rendering.
pub open spec fn spec_hash_of(v: JsonValue) -> Seq<u8> {
    sha256_of(vstd::utf8::encode_utf8(canon(v)))
}

/// Canonicalises the value and hashes the resulting bytes.
pub fn hash_canonical(v: &JsonValue) -> (r: Vec<u8>)
    ensures
        r@ == spec_hash_of(*v),
        r@.len() == 32,
{
    let s = crate::json::canonicalize(v);
    sha256(s.as_str().as_bytes())
}

/// Byte-for-byte equality.
pub fn bytes_eq(a: &Vec<u8>, b: &Vec<u8>) -> (r: bool)
    ensures
        r == (a@ == b@),
{
    let n = a.len();
    if n != b.len() {
        return false;
    }
    let mut i: usize = 0;
    while i < n
        invariant
            n == a@.len(),
            n == b@.len(),
            i <= n,
            forall|k: int| 0 <= k < i ==> a@[k] == b@[k],
        decreases n - i,
    {
        if a[i] != b[i] {
            return false;
        }
        i = i + 1;
    }
    proof {
        assert(a@ =~= b@);
    }
    true
}

/// An owned copy of a byte vector.
pub fn copy_bytes(v: &Vec<u8>) -> (r: Vec<u8>)
    ensures
        r@ == v@,
{
    vstd::slice::slice_to_vec(v.as_slice())
}

/// The all-zero digest, the root of an empty Merkle tree.
pub open spec fn spec_zero_digest() -> Seq<u8> {
    Seq::new(32, |i: int| 0u8)
}

/// Thirty-two zero bytes.
pub fn zero_digest() -> (r: Vec<u8>)
    ensures
        r@ == spec_zero_digest(),
{
    let mut r: Vec<u8> = Vec::new();
    let mut i: usize = 0;
    while i < 32
        invariant
            i <= 32,
            r@.len() == i,
            forall|k: int| 0 <= k < i ==> r@[k] == 0u8,
        decreases 32 - i,
    {
        r.push(0);
        i = i + 1;
    }
    proof {
        assert(r@ =~= spec_zero_digest());
    }
    r
}

} // verus!
