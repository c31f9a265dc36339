use vstd::prelude::*;

use crate::file::File;
use crate::file::FileV;
use crate::state::State;

verus! {

/// The SHA-1 digest of a byte string, as the outside hasher computes it.
pub uninterp spec fn sha1_of(data: Seq<u8>) -> Seq<u8>;

/// Relies on sha1::Sha1 through the Digest trait: the digest has twenty
/// bytes and depends on the input bytes alone.
#[verifier::external_body]
pub fn hash(data: &Vec<u8>) -> (r: [u8; 20])
    ensures
        r@ == sha1_of(data@),
        r@.len() == 20,
{
    let mut hasher: sha1::Sha1 = sha1::Digest::new();
    sha1::Digest::update(&mut hasher, data.as_slice());
    let digest = sha1::Digest::finalize(hasher);
    digest.into()
}

impl File {
    /// The entry for a file whose bytes are in hand: its length, its
    /// digest, and the given time and tag.
    pub fn from_bytes(mtime: i64, data: &Vec<u8>, state: State) -> (r: Self)
        ensures
            r@ == (FileV {
                mtime,
                size: data@.len() as u64,
                hash: sha1_of(data@),
                state,
            }),
    {
        let digest = hash(data);
        File { mtime, size: data.len() as u64, hash: digest, state }
    }
}

} // verus!
