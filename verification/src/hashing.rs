use vstd::prelude::*;

use sha3::digest::{ExtendableOutput, Update, XofReader};
use sha3::Shake256;

verus! {

/// The 64-bit content hash used for content-addressing blobs: the first eight
/// bytes of the SHAKE-256 extendable output over the content, read as a
/// little-endian integer. It is a function of the content alone, stable
/// across runs, and treated as collision-free for practical purposes.
pub uninterp spec fn content_hash_of(data: Seq<u8>) -> i64;

/// Relies on sha3's `Shake256` (through digest's `Update`, `ExtendableOutput`
/// and `XofReader`): a fresh hasher's output depends on the input bytes alone,
/// so equal content always hashes equally.
#[verifier::external_body]
pub(crate) fn content_hash(data: &Vec<u8>) -> (r: i64)
    ensures
        r == content_hash_of(data@),
{
    let mut hasher = Shake256::default();
    hasher.update(data.as_slice());
    let mut reader = hasher.finalize_xof();
    let mut buf = [0u8; 8];
    reader.read(&mut buf);
    i64::from_le_bytes(buf)
}

} // verus!
