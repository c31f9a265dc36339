use vstd::prelude::*;

use crate::state::State;

verus! {

/// Mathematical model of a file entry: the four fields of `File` with the
/// digest as a sequence.
pub struct FileV {
    pub mtime: i64,
    pub size: u64,
    pub hash: Seq<u8>,
    pub state: State,
}

/// Metadata for one regular file: modification time in whole seconds since
/// the Unix epoch, byte length, SHA-1 digest of the contents, and the
/// lifecycle tag assigned by the scanner.
#[derive(Debug, Clone, Copy, PartialEq)]
pub struct File {
    pub mtime: i64,
    pub size: u64,
    pub hash: [u8; 20],
    pub state: State,
}

impl View for File {
    type V = FileV;

    open spec fn view(&self) -> FileV {
        FileV { mtime: self.mtime, size: self.size, hash: self.hash@, state: self.state }
    }
}

impl File {
    pub fn from_data(mtime: i64, size: u64, hash: [u8; 20], state: State) -> (r: Self)
        ensures
            r@ == (FileV { mtime, size, hash: hash@, state }),
    {
        Self { mtime, size, hash, state }
    }

    pub fn mtime(&self) -> (r: i64)
        ensures
            r == self@.mtime,
    {
        self.mtime
    }

    pub fn size(&self) -> (r: u64)
        ensures
            r == self@.size,
    {
        self.size
    }

    pub fn hash(&self) -> (r: [u8; 20])
        ensures
            r@ == self@.hash,
    {
        self.hash
    }

    pub fn state(&self) -> (r: &State)
        ensures
            *r == self@.state,
    {
        &self.state
    }

    pub fn set_state(&mut self, state: State)
        ensures
            final(self)@ == (FileV { state, ..old(self)@ }),
    {
        self.state = state;
    }
}

/// True when the two digests hold the same twenty bytes.
pub fn hash_eq(a: &[u8; 20], b: &[u8; 20]) -> (r: bool)
    ensures
        r == (a@ == b@),
{
    let mut i: usize = 0;
    while i < 20
        invariant
            i <= 20,
            forall|j: int| 0 <= j < i ==> a@[j] == b@[j],
        decreases 20 - i,
    {
        if a[i] != b[i] {
            return false;
        }
        i += 1;
    }
    proof {
        assert(a@ =~= b@);
    }
    true
}

} // verus!
