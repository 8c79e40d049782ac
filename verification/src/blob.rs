use vstd::prelude::*;

use crate::hashing::content_hash;
use crate::hashing::content_hash_of;

verus! {

/// Deduplicated binary content, addressed by a deterministic 64-bit hash of
/// its bytes. Two blobs built from the same bytes always carry the same hash.
#[derive(Debug)]
pub struct Blob {
    pub hash: i64,
    pub blob: Vec<u8>,
}

/// The mathematical value of a [`Blob`].
pub ghost struct BlobView {
    pub hash: i64,
    pub blob: Seq<u8>,
}

impl View for Blob {
    type V = BlobView;

    open spec fn view(&self) -> BlobView {
        BlobView { hash: self.hash, blob: self.blob@ }
    }
}

impl Clone for Blob {
    /// Cloning keeps the blob's value.
    fn clone(&self) -> (r: Blob)
        ensures
            r@ == self@,
    {
        Blob { hash: self.hash, blob: self.blob.clone() }
    }
}

impl Blob {
    /// Content-addresses `blob`: the stored hash is the content hash of the
    /// bytes, so building twice from equal bytes gives equal hashes.
    pub fn new(blob: Vec<u8>) -> (r: Blob)
        ensures
            r@.hash == content_hash_of(blob@),
            r@.blob == blob@,
    {
        let hash = content_hash(&blob);
        Blob { hash, blob }
    }
}

} // verus!
