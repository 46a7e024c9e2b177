use byteorder::{ByteOrder, NetworkEndian};
use vstd::prelude::*;

verus! {

/// The unsigned value of the two bytes of `s` at `i`, most significant first.
pub open spec fn be16(s: Seq<u8>, i: int) -> int {
    s[i] as int * 0x100 + s[i + 1] as int
}

/// The unsigned value of the four bytes of `s` at `i`, most significant first.
pub open spec fn be32(s: Seq<u8>, i: int) -> int {
    s[i] as int * 0x1000000 + s[i + 1] as int * 0x10000 + s[i + 2] as int * 0x100 + s[i + 3] as int
}

/// The `n` consecutive big-endian 32-bit words of `s` that start at `start`.
pub open spec fn be32_words(s: Seq<u8>, start: int, n: nat) -> Seq<u32> {
    Seq::new(n, |k: int| be32(s, start + 4 * k) as u32)
}

/// Relies on byteorder's `NetworkEndian::read_u16`: the first two bytes of the
/// buffer, most significant first. It panics on a shorter buffer.
#[verifier::external_body]
pub(crate) fn read_u16(b: &[u8]) -> (r: u16)
    requires
        b@.len() >= 2,
    ensures
        r as int == be16(b@, 0),
{
    NetworkEndian::read_u16(b)
}

/// Relies on byteorder's `NetworkEndian::read_u32`: the first four bytes of the
/// buffer, most significant first. It panics on a shorter buffer.
#[verifier::external_body]
pub(crate) fn read_u32(b: &[u8]) -> (r: u32)
    requires
        b@.len() >= 4,
    ensures
        r as int == be32(b@, 0),
{
    NetworkEndian::read_u32(b)
}

} // verus!
