//! A pass-through hasher for keys that already are well-distributed 64-bit values.
use vstd::prelude::*;

verus! {

/// A hasher that keeps the last 64-bit value written to it as its hash.
///
/// Only a write of exactly eight bytes changes the state: such a key already is
/// a uniformly distributed value, so no mixing is needed.
#[derive(Default)]
pub struct TypeIdHasher {
    value: u64,
}

/// The integer whose little-endian encoding is `b` (the first byte is the least significant).
pub open spec fn le_value(b: Seq<u8>) -> int
    decreases b.len(),
{
    if b.len() == 0 {
        0
    } else {
        b[0] as int + 256 * le_value(b.drop_first())
    }
}

/// The integer whose big-endian encoding is `b`.
pub open spec fn be_value(b: Seq<u8>) -> int {
    le_value(b.reverse())
}

/// Relies on u64::from_ne_bytes: reads eight bytes in the machine's byte order,
/// which is either little-endian or big-endian.
#[verifier::external_body]
fn u64_from_ne(b: [u8; 8]) -> (r: u64)
    ensures
        r as int == le_value(b@) || r as int == be_value(b@),
{
    u64::from_ne_bytes(b)
}

impl TypeIdHasher {
    /// The current hash value.
    pub closed spec fn spec_value(&self) -> u64 {
        self.value
    }

    /// A hasher whose value is zero.
    pub fn new() -> (r: Self)
        ensures
            r.spec_value() == 0,
    {
        TypeIdHasher { value: 0 }
    }
}

impl core::hash::Hasher for TypeIdHasher {
    fn write(&mut self, bytes: &[u8])
        ensures
            bytes@.len() != 8 ==> final(self).spec_value() == old(self).spec_value(),
            bytes@.len() == 8 ==> final(self).spec_value() as int == le_value(bytes@)
                || final(self).spec_value() as int == be_value(bytes@),
    {
        if bytes.len() == 8 {
            let arr: [u8; 8] = [bytes[0], bytes[1], bytes[2], bytes[3], bytes[4], bytes[5], bytes[6], bytes[7]];
            assert(arr@ =~= bytes@);
            self.value = u64_from_ne(arr);
        }
    }

    fn finish(&self) -> (r: u64)
        ensures
            r == self.spec_value(),
    {
        self.value
    }
}

} // verus!
