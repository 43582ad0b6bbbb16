//! Four-byte resource ids, as chunks and generators name one another.

use vstd::prelude::*;
use vstd::string::StringSliceAdditionalSpecFns;

verus! {

/// `p` is a prefix of the id's bytes.
pub open spec fn id_starts_with(id: Seq<u8>, p: Seq<u8>) -> bool {
    p.len() <= id.len() && id.subrange(0, p.len() as int) == p
}

/// A four-byte resource id.
#[derive(Debug, Clone, Copy, PartialEq, Eq, Default)]
pub struct DatId(pub [u8; 4]);

impl DatId {
    /// The id stored at `off`.
    pub fn from(b: &[u8], off: usize) -> (r: DatId)
        requires
            off + 4 <= b@.len(),
        ensures
            r.0@ == b@.subrange(off as int, off + 4),
    {
        let _ = b.len();
        let id = [b[off], b[off + 1], b[off + 2], b[off + 3]];
        assert(id@ =~= b@.subrange(off as int, off + 4));
        DatId(id)
    }

    pub fn is_zero(&self) -> (r: bool)
        ensures
            r == (self.0@ == seq![0u8, 0u8, 0u8, 0u8]),
    {
        let z = self.0[0] == 0 && self.0[1] == 0 && self.0[2] == 0 && self.0[3] == 0;
        proof {
            if z {
                assert(self.0@ =~= seq![0u8, 0u8, 0u8, 0u8]);
            } else if self.0@ == seq![0u8, 0u8, 0u8, 0u8] {
                assert(self.0@[0] == 0 && self.0@[1] == 0 && self.0@[2] == 0 && self.0@[3] == 0);
            }
        }
        z
    }

    /// The id's bytes begin with those of `prefix`.
    pub fn starts_with(&self, prefix: &str) -> (r: bool)
        ensures
            r == id_starts_with(self.0@, prefix.spec_bytes()),
    {
        let p = prefix.as_bytes();
        if p.len() > 4 {
            return false;
        }
        let mut i: usize = 0;
        while i < p.len()
            invariant
                p@ == prefix.spec_bytes(),
                p@.len() <= 4,
                i <= p@.len(),
                forall|k: int| 0 <= k < i ==> self.0@[k] == p@[k],
            decreases p.len() - i,
        {
            if self.0[i] != p[i] {
                assert(self.0@.subrange(0, p@.len() as int)[i as int] != p@[i as int]);
                return false;
            }
            i += 1;
        }
        assert(self.0@.subrange(0, p@.len() as int) =~= p@);
        true
    }
}

} // verus!
