//! Object identifiers: 32 bytes, written as `0x` and 64 hexadecimal digits.

use crate::text::{hex_encode, hex_lower};
use vstd::prelude::*;
use vstd::string::*;

verus! {

/// Number of bytes in an object identifier.
pub const OBJECT_ID_LENGTH: usize = 32;

/// The identifier of an on-chain object, package or account.
#[derive(Clone, Copy, Debug, PartialEq, Eq)]
pub struct ObjectId {
    pub bytes: [u8; OBJECT_ID_LENGTH],
}

impl View for ObjectId {
    type V = Seq<u8>;

    open spec fn view(&self) -> Seq<u8> {
        self.bytes@
    }
}

/// The text of an identifier: `0x`, then all of its bytes in lower-case
/// hexadecimal, leading zeros included.
pub open spec fn object_id_text(id: Seq<u8>) -> Seq<char> {
    seq!['0', 'x'] + hex_lower(id)
}

/// Two identifiers with the same text are the same identifier.
pub proof fn lemma_object_id_text_injective(a: Seq<u8>, b: Seq<u8>)
    requires
        object_id_text(a) == object_id_text(b),
    ensures
        a == b,
{
    crate::text::lemma_hex_round_trip(a);
    crate::text::lemma_hex_round_trip(b);
    assert(hex_lower(a) =~= object_id_text(a).skip(2));
    assert(hex_lower(b) =~= object_id_text(b).skip(2));
}

impl ObjectId {
    /// The identifier made of the given bytes.
    pub fn new(bytes: [u8; 32]) -> (id: ObjectId)
        ensures
            id@ == bytes@,
    {
        ObjectId { bytes }
    }

    /// The identifier held in the 32 bytes of `bytes` that start at `start`.
    pub fn from_slice(bytes: &[u8], start: usize) -> (id: ObjectId)
        requires
            start + 32 <= bytes.len(),
        ensures
            id@ == bytes@.subrange(start as int, start + 32),
    {
        let mut out: [u8; 32] = [0u8; 32];
        let mut i: usize = 0;
        while i < 32
            invariant
                i <= 32,
                start + 32 <= bytes.len(),
                forall|j: int| 0 <= j < i ==> out@[j] == bytes@[start + j],
            decreases 32 - i,
        {
            out[i] = bytes[start + i];
            i = i + 1;
        }
        assert(out@ =~= bytes@.subrange(start as int, start + 32));
        ObjectId { bytes: out }
    }

    /// Whether the two identifiers hold the same bytes.
    pub fn same_as(&self, other: &ObjectId) -> (same: bool)
        ensures
            same == (self@ == other@),
    {
        let mut i: usize = 0;
        while i < 32
            invariant
                i <= 32,
                forall|j: int| 0 <= j < i ==> self.bytes@[j] == other.bytes@[j],
            decreases 32 - i,
        {
            if self.bytes[i] != other.bytes[i] {
                return false;
            }
            i = i + 1;
        }
        assert(self@ =~= other@);
        true
    }

    /// The identifier as text.
    pub fn to_hex_literal(&self) -> (s: String)
        ensures
            s@ == object_id_text(self@),
    {
        let digits = hex_encode(self.bytes.as_slice());
        let mut s = String::new();
        s.push('0');
        s.push('x');
        s.append(digits.as_str());
        assert(s@ =~= object_id_text(self@));
        s
    }
}

} // verus!
