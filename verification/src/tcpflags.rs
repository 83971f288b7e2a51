//! The flag bits of the TCP header's control byte.

use vstd::prelude::*;

verus! {

/// No more data from the sender.
pub const FIN: u8 = 1;

/// Synchronize sequence numbers.
pub const SYN: u8 = 2;

/// Reset the connection.
pub const RST: u8 = 4;

/// Push the data to the application.
pub const PSH: u8 = 8;

/// The acknowledgment number is significant.
pub const ACK: u8 = 16;

/// Whether the control byte `flags` carries any bit of `mask`.
pub open spec fn has_flag(flags: u8, mask: u8) -> bool {
    flags & mask != 0
}

/// Tests the control byte `flags` for the bits of `mask`.
pub fn contains(flags: u8, mask: u8) -> (r: bool)
    ensures
        r == has_flag(flags, mask),
{
    flags & mask != 0
}

/// A control byte made of two flags carries each of them, and of the five
/// flags only those two.
pub proof fn lemma_flag_bits()
    ensures
        has_flag(SYN, SYN),
        !has_flag(SYN, ACK),
        !has_flag(SYN, FIN),
        has_flag(ACK, ACK),
        !has_flag(ACK, SYN),
        !has_flag(ACK, FIN),
        has_flag(SYN | ACK, SYN),
        has_flag(SYN | ACK, ACK),
        !has_flag(SYN | ACK, FIN),
        has_flag(FIN | ACK, FIN),
        has_flag(FIN | ACK, ACK),
        !has_flag(FIN | ACK, SYN),
        SYN | ACK == 18,
        FIN | ACK == 17,
{
    assert(2u8 & 2u8 != 0) by (bit_vector);
    assert(2u8 & 16u8 == 0) by (bit_vector);
    assert(2u8 & 1u8 == 0) by (bit_vector);
    assert(16u8 & 16u8 != 0) by (bit_vector);
    assert(16u8 & 2u8 == 0) by (bit_vector);
    assert(16u8 & 1u8 == 0) by (bit_vector);
    assert(2u8 | 16u8 == 18u8) by (bit_vector);
    assert(1u8 | 16u8 == 17u8) by (bit_vector);
    assert(18u8 & 2u8 != 0) by (bit_vector);
    assert(18u8 & 16u8 != 0) by (bit_vector);
    assert(18u8 & 1u8 == 0) by (bit_vector);
    assert(17u8 & 1u8 != 0) by (bit_vector);
    assert(17u8 & 16u8 != 0) by (bit_vector);
    assert(17u8 & 2u8 == 0) by (bit_vector);
}

} // verus!
