//! Little-endian 64-bit integers, as the snapshot stores every length.

use byteorder::{ByteOrder, LittleEndian};
use vstd::prelude::*;

verus! {

/// The unsigned integer that eight bytes spell, least significant byte first.
#[verifier::opaque]
pub open spec fn le_u64(b: Seq<u8>) -> u64
    recommends
        b.len() == 8,
{
    (b[0] as int + 0x100 * (b[1] as int) + 0x1_0000 * (b[2] as int) + 0x100_0000 * (b[3] as int)
        + 0x1_0000_0000 * (b[4] as int) + 0x100_0000_0000 * (b[5] as int) + 0x1_0000_0000_0000 * (
    b[6] as int) + 0x100_0000_0000_0000 * (b[7] as int)) as u64
}

/// The eight bytes that spell `n`, least significant byte first.
#[verifier::opaque]
pub open spec fn le_bytes(n: u64) -> Seq<u8> {
    seq![
        (n % 0x100) as u8,
        (n / 0x100 % 0x100) as u8,
        (n / 0x1_0000 % 0x100) as u8,
        (n / 0x100_0000 % 0x100) as u8,
        (n / 0x1_0000_0000 % 0x100) as u8,
        (n / 0x100_0000_0000 % 0x100) as u8,
        (n / 0x1_0000_0000_0000 % 0x100) as u8,
        (n / 0x100_0000_0000_0000 % 0x100) as u8,
    ]
}

/// Reading back the bytes of a number gives the number.
pub proof fn lemma_le_round_trip(n: u64)
    ensures
        le_bytes(n).len() == 8,
        le_u64(le_bytes(n)) == n,
{
    reveal(le_u64);
    reveal(le_bytes);
    assert(n == (n % 0x100) + 0x100 * (n / 0x100 % 0x100) + 0x1_0000 * (n / 0x1_0000 % 0x100)
        + 0x100_0000 * (n / 0x100_0000 % 0x100) + 0x1_0000_0000 * (n / 0x1_0000_0000 % 0x100)
        + 0x100_0000_0000 * (n / 0x100_0000_0000 % 0x100) + 0x1_0000_0000_0000 * (n
        / 0x1_0000_0000_0000 % 0x100) + 0x100_0000_0000_0000 * (n / 0x100_0000_0000_0000 % 0x100))
        by (bit_vector);
}

/// `byteorder::LittleEndian::read_u64`: the first eight bytes of `buf`, read
/// least significant byte first. The outside function panics on a shorter
/// buffer, which `requires` leaves out.
#[verifier::external_body]
pub(crate) fn read_u64(buf: &[u8]) -> (n: u64)
    requires
        buf@.len() >= 8,
    ensures
        n == le_u64(buf@.subrange(0, 8)),
{
    LittleEndian::read_u64(buf)
}

/// `byteorder::LittleEndian::write_u64` into a fresh buffer of eight bytes:
/// the buffer then holds `n`, least significant byte first.
#[verifier::external_body]
pub(crate) fn write_u64(n: u64) -> (buf: Vec<u8>)
    ensures
        buf@ == le_bytes(n),
        buf@.len() == 8,
{
    let mut buf = vec![0u8; 8];
    LittleEndian::write_u64(&mut buf, n);
    buf
}

} // verus!
