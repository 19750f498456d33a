use vstd::prelude::*;

verus! {

/// The BLAKE3 hash (32 bytes) of `data`, as computed by `blake3::hash`.
pub uninterp spec fn blake3_digest(data: Seq<u8>) -> Seq<u8>;

/// Hashes `data` with `blake3::hash` and returns the 32 bytes of the result.
/// Trusted: the contract only claims that the result is the BLAKE3 hash of the
/// argument, a function of the bytes alone; nothing is said of its value.
#[verifier::external_body]
pub(crate) fn payload_digest(data: &[u8]) -> (d: [u8; 32])
    ensures
        d@ == blake3_digest(data@),
{
    *blake3::hash(data).as_bytes()
}

/// Compares two digests byte by byte.
pub fn digests_equal(a: &[u8; 32], b: &[u8; 32]) -> (eq: bool)
    ensures
        eq == (a@ == b@),
{
    let mut i: usize = 0;
    while i < 32
        invariant
            i <= 32,
            a@.len() == 32,
            b@.len() == 32,
            forall|j: int| 0 <= j < i ==> a@[j] == b@[j],
        decreases 32 - i,
    {
        if a[i] != b[i] {
            return false;
        }
        i = i + 1;
    }
    assert(a@ =~= b@);
    true
}

} // verus!
