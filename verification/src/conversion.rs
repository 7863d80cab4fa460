//! Little-endian decoding of fixed-width integers.

use vstd::prelude::*;

verus! {

/// The number that a sequence of bytes denotes when its first byte is the least
/// significant one.
pub open spec fn le_value(bytes: Seq<u8>) -> nat
    decreases bytes.len(),
{
    if bytes.len() == 0 {
        0
    } else {
        bytes[0] as nat + 256 * le_value(bytes.drop_first())
    }
}

/// The signed reading of an unsigned number below `modulus` in two's complement:
/// the upper half of the range stands for the negative numbers.
pub open spec fn as_signed(value: nat, modulus: nat) -> int {
    if 2 * value < modulus {
        value as int
    } else {
        value - modulus
    }
}

/// `le_value` written out as a sum, for the widths that the formats use.
pub proof fn lemma_le_value_sum(bytes: Seq<u8>)
    ensures
        bytes.len() == 1 ==> le_value(bytes) == bytes[0] as nat,
        bytes.len() == 2 ==> le_value(bytes) == bytes[0] as nat + 0x100 * (bytes[1] as nat),
        bytes.len() == 4 ==> le_value(bytes) == bytes[0] as nat + 0x100 * (bytes[1] as nat)
            + 0x1_0000 * (bytes[2] as nat) + 0x100_0000 * (bytes[3] as nat),
        bytes.len() == 8 ==> le_value(bytes) == bytes[0] as nat + 0x100 * (bytes[1] as nat)
                + 0x1_0000 * (bytes[2] as nat) + 0x100_0000 * (bytes[3] as nat)
            + 0x1_0000_0000 * (bytes[4] as nat) + 0x100_0000_0000 * (bytes[5] as nat)
            + 0x1_0000_0000_0000 * (bytes[6] as nat) + 0x100_0000_0000_0000 * (bytes[7] as nat),
{
    reveal_with_fuel(le_value, 9);
}

/// Reads the first two bytes of `bytes` as an unsigned little-endian number.
pub fn to_u16(bytes: &[u8]) -> (value: u16)
    requires
        bytes@.len() >= 2,
    ensures
        value as nat == le_value(bytes@.take(2)),
{
    proof {
        lemma_le_value_sum(bytes@.take(2));
    }
    let b0: u16 = bytes[0] as u16;
    let b1: u16 = bytes[1] as u16;
    b0 + 0x100 * b1
}

/// Reads the first four bytes of `bytes` as an unsigned little-endian number.
pub fn to_u32(bytes: &[u8]) -> (value: u32)
    requires
        bytes@.len() >= 4,
    ensures
        value as nat == le_value(bytes@.take(4)),
{
    proof {
        lemma_le_value_sum(bytes@.take(4));
    }
    let b0: u32 = bytes[0] as u32;
    let b1: u32 = bytes[1] as u32;
    let b2: u32 = bytes[2] as u32;
    let b3: u32 = bytes[3] as u32;
    b0 + 0x100 * b1 + 0x1_0000 * b2 + 0x100_0000 * b3
}

/// Reads the first eight bytes of `bytes` as an unsigned little-endian number.
pub fn to_u64(bytes: &[u8]) -> (value: u64)
    requires
        bytes@.len() >= 8,
    ensures
        value as nat == le_value(bytes@.take(8)),
{
    proof {
        lemma_le_value_sum(bytes@.take(8));
    }
    let b0: u64 = bytes[0] as u64;
    let b1: u64 = bytes[1] as u64;
    let b2: u64 = bytes[2] as u64;
    let b3: u64 = bytes[3] as u64;
    let b4: u64 = bytes[4] as u64;
    let b5: u64 = bytes[5] as u64;
    let b6: u64 = bytes[6] as u64;
    let b7: u64 = bytes[7] as u64;
    b0 + 0x100 * b1 + 0x1_0000 * b2 + 0x100_0000 * b3 + 0x1_0000_0000 * b4 + 0x100_0000_0000 * b5
        + 0x1_0000_0000_0000 * b6 + 0x100_0000_0000_0000 * b7
}

/// Reads the first two bytes of `bytes` as a signed little-endian number in two's
/// complement.
pub fn to_i16(bytes: &[u8]) -> (value: i16)
    requires
        bytes@.len() >= 2,
    ensures
        value as int == as_signed(le_value(bytes@.take(2)), 0x1_0000),
{
    let unsigned: u16 = to_u16(bytes);
    if unsigned < 0x8000 {
        unsigned as i16
    } else {
        ((unsigned - 0x8000) as i16) + i16::MIN
    }
}

} // verus!
