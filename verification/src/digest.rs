//! Content hashes: the natural key of a piece of content.

use vstd::prelude::*;
use vstd::std_specs::cmp::PartialEqSpecImpl;

verus! {

/// The length in bytes of a content hash (a 256-bit digest).
pub const DIGEST_LEN: usize = 32;

/// Why a byte string is no content hash: it has the wrong length.
#[derive(Clone, Copy, Debug, PartialEq, Eq, Structural)]
pub struct HashError {
    /// The length of the rejected input.
    pub len: usize,
}

/// A content hash. Its view is the sequence of its 32 bytes.
#[derive(Clone, Copy, Debug)]
pub struct Digest {
    bytes: [u8; 32],
}

impl View for Digest {
    type V = Seq<u8>;

    closed spec fn view(&self) -> Seq<u8> {
        self.bytes@
    }
}

impl Digest {
    /// Every digest has exactly `DIGEST_LEN` bytes.
    pub proof fn lemma_len(self)
        ensures
            self@.len() == DIGEST_LEN,
    {
    }

    /// Validates raw bytes: exactly the inputs of `DIGEST_LEN` bytes are
    /// digests, and every other input is rejected with its length.
    pub fn try_from(bytes: &[u8]) -> (r: Result<Digest, HashError>)
        ensures
            bytes@.len() == DIGEST_LEN ==> r is Ok && r->Ok_0@ == bytes@,
            bytes@.len() != DIGEST_LEN ==> r == Err::<Digest, HashError>(
                HashError { len: bytes@.len() as usize },
            ),
    {
        if bytes.len() != DIGEST_LEN {
            return Err(HashError { len: bytes.len() });
        }
        let mut out: [u8; 32] = [0u8; 32];
        let mut i: usize = 0;
        while i < DIGEST_LEN
            invariant
                i <= DIGEST_LEN,
                bytes@.len() == DIGEST_LEN,
                forall|j: int| 0 <= j < i ==> out@[j] == bytes@[j],
            decreases DIGEST_LEN - i,
        {
            out[i] = bytes[i];
            i = i + 1;
        }
        assert(out@ =~= bytes@);
        Ok(Digest { bytes: out })
    }

    /// The bytes of the digest.
    pub fn to_vec(&self) -> (out: Vec<u8>)
        ensures
            out@ == self@,
    {
        let mut out: Vec<u8> = Vec::with_capacity(DIGEST_LEN);
        let mut i: usize = 0;
        while i < DIGEST_LEN
            invariant
                i <= DIGEST_LEN,
                out@.len() == i,
                forall|j: int| 0 <= j < i ==> out@[j] == self.bytes@[j],
            decreases DIGEST_LEN - i,
        {
            out.push(self.bytes[i]);
            i = i + 1;
        }
        assert(out@ =~= self@);
        out
    }
}

impl PartialEq for Digest {
    fn eq(&self, other: &Digest) -> (b: bool) {
        let mut i: usize = 0;
        while i < DIGEST_LEN
            invariant
                i <= DIGEST_LEN,
                forall|j: int| 0 <= j < i ==> self.bytes@[j] == other.bytes@[j],
            decreases DIGEST_LEN - i,
        {
            if self.bytes[i] != other.bytes[i] {
                return false;
            }
            i = i + 1;
        }
        assert(self.bytes@ =~= other.bytes@);
        true
    }
}

impl PartialEqSpecImpl for Digest {
    open spec fn obeys_eq_spec() -> bool {
        true
    }

    open spec fn eq_spec(&self, other: &Digest) -> bool {
        self@ == other@
    }
}

impl Eq for Digest {

}

} // verus!
