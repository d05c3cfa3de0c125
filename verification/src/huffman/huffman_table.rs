//! The static code table: for every byte value the bit pattern that stands
//! for it in a compressed stream, and the code that ends a stream.

use vstd::arithmetic::power2::{lemma2_to64, pow2};
use vstd::prelude::*;
use crate::huffman::bits::low_bits;

verus! {

/// The bit pattern of each byte value, in the low-order bits of the entry.
pub const CODE_VALUES: [u32; 256] = [
    0x000, 0x01F, 0x022, 0x034, 0x075, 0x028, 0x03B, 0x032, 0x0E0, 0x062, 0x056, 0x079,
    0x19D, 0x097, 0x02A, 0x057, 0x071, 0x05B, 0x1CC, 0x0A7, 0x025, 0x04F, 0x066, 0x07D,
    0x191, 0x1CE, 0x03F, 0x090, 0x059, 0x07B, 0x091, 0x0C6, 0x02D, 0x186, 0x06F, 0x093,
    0x1CC, 0x05A, 0x1AE, 0x1C0, 0x148, 0x14A, 0x082, 0x19F, 0x171, 0x120, 0x0E7, 0x1F3,
    0x14B, 0x100, 0x190, 0x013, 0x161, 0x125, 0x133, 0x195, 0x173, 0x1CA, 0x086, 0x1E9,
    0x0DB, 0x1EC, 0x08B, 0x085, 0x00A, 0x096, 0x09C, 0x1C3, 0x19C, 0x08F, 0x18F, 0x091,
    0x087, 0x0C6, 0x177, 0x089, 0x0D6, 0x08C, 0x1EE, 0x1EB, 0x084, 0x164, 0x175, 0x1CD,
    0x05E, 0x088, 0x12B, 0x172, 0x10A, 0x08D, 0x13A, 0x11C, 0x1E1, 0x1E0, 0x187, 0x1DC,
    0x1DF, 0x074, 0x19F, 0x08D, 0x0E4, 0x079, 0x0EA, 0x0E1, 0x040, 0x041, 0x10B, 0x0B0,
    0x06A, 0x0C1, 0x071, 0x078, 0x0B1, 0x14C, 0x043, 0x076, 0x066, 0x04D, 0x08A, 0x02F,
    0x0C9, 0x0CE, 0x149, 0x160, 0x1BA, 0x19E, 0x39F, 0x0E5, 0x194, 0x184, 0x126, 0x030,
    0x06C, 0x121, 0x1E8, 0x1C1, 0x11D, 0x163, 0x385, 0x3DB, 0x17D, 0x106, 0x397, 0x24E,
    0x02E, 0x098, 0x33C, 0x32E, 0x1E9, 0x0BF, 0x3DF, 0x1DD, 0x32D, 0x2ED, 0x30B, 0x107,
    0x2E8, 0x3DE, 0x125, 0x1E8, 0x0E9, 0x1CD, 0x1B5, 0x165, 0x232, 0x2E1, 0x3AE, 0x3C6,
    0x3E2, 0x205, 0x29A, 0x248, 0x2CD, 0x23B, 0x3C5, 0x251, 0x2E9, 0x252, 0x1EA, 0x3A0,
    0x391, 0x23C, 0x392, 0x3D5, 0x233, 0x2CC, 0x390, 0x1BB, 0x3A1, 0x3C4, 0x211, 0x203,
    0x12A, 0x231, 0x3E0, 0x29B, 0x3D7, 0x202, 0x3AD, 0x213, 0x253, 0x32C, 0x23D, 0x23F,
    0x32F, 0x11C, 0x384, 0x31C, 0x17C, 0x30A, 0x2E0, 0x276, 0x250, 0x3E3, 0x396, 0x18F,
    0x204, 0x206, 0x230, 0x265, 0x212, 0x23E, 0x3AC, 0x393, 0x3E1, 0x1DE, 0x3D6, 0x31D,
    0x3E5, 0x3E4, 0x207, 0x3C7, 0x277, 0x3D4, 0x0C0, 0x162, 0x3DA, 0x124, 0x1B4, 0x264,
    0x33D, 0x1D1, 0x1AF, 0x39E, 0x24F, 0x373, 0x249, 0x372, 0x167, 0x210, 0x23A, 0x1B8,
    0x3AF, 0x18E, 0x2EC, 0x062,
];

/// The width in bits of each byte value's pattern.
pub const CODE_BIT_COUNTS: [u8; 256] = [
    2, 5, 6, 7, 7, 6, 6, 7, 8, 8, 7, 8, 9, 8, 6, 7,
    8, 8, 9, 8, 7, 7, 8, 8, 9, 9, 7, 9, 8, 8, 8, 8,
    6, 9, 8, 9, 10, 8, 10, 10, 9, 9, 9, 10, 9, 9, 9, 10,
    9, 9, 9, 6, 9, 9, 9, 9, 9, 9, 9, 9, 9, 9, 9, 9,
    5, 8, 8, 9, 9, 9, 9, 9, 9, 9, 9, 9, 9, 9, 9, 9,
    9, 9, 9, 9, 8, 9, 9, 9, 9, 9, 9, 9, 10, 10, 9, 10,
    10, 7, 9, 8, 8, 7, 9, 9, 8, 7, 9, 9, 8, 8, 7, 7,
    8, 9, 7, 8, 7, 7, 9, 6, 8, 9, 9, 9, 10, 10, 10, 9,
    9, 9, 9, 7, 8, 9, 9, 10, 10, 10, 10, 10, 10, 10, 10, 10,
    7, 8, 10, 10, 10, 9, 10, 10, 10, 10, 10, 10, 10, 10, 10, 10,
    9, 10, 10, 9, 10, 10, 11, 11, 11, 10, 10, 10, 10, 10, 11, 10,
    10, 10, 9, 11, 11, 10, 11, 11, 10, 10, 11, 10, 11, 11, 10, 10,
    9, 10, 11, 10, 11, 10, 11, 10, 10, 10, 10, 10, 10, 10, 10, 10,
    10, 10, 10, 10, 10, 11, 10, 10, 10, 10, 10, 10, 10, 10, 11, 11,
    11, 10, 11, 10, 11, 11, 10, 11, 10, 11, 8, 10, 10, 10, 10, 10,
    10, 10, 10, 10, 10, 11, 10, 11, 9, 10, 10, 10, 11, 10, 10, 7,
];

/// The bit pattern that ends a compressed stream.
pub const TERMINAL_CODE_VALUE: u32 = 0xD;

/// The width in bits of the pattern that ends a compressed stream.
pub const TERMINAL_CODE_BIT_COUNT: u8 = 4;

/// The widest pattern of the table, in bits.
pub const MAX_CODE_BIT_COUNT: u8 = 11;

/// The bit pattern that stands for `byte`.
pub open spec fn code_value(byte: u8) -> u32 {
    CODE_VALUES[byte as int]
}

/// The width in bits of the pattern that stands for `byte`.
pub open spec fn code_bit_count(byte: u8) -> u8 {
    CODE_BIT_COUNTS[byte as int]
}

/// The code of `byte` as it is transmitted.
pub open spec fn code_bits(byte: u8) -> Seq<bool> {
    low_bits(code_value(byte) as nat, code_bit_count(byte) as nat)
}

/// The terminal code as it is transmitted: 1101.
pub open spec fn terminal_bits() -> Seq<bool> {
    low_bits(TERMINAL_CODE_VALUE as nat, TERMINAL_CODE_BIT_COUNT as nat)
}

/// Looks up the bit pattern of `byte`.
pub fn get_compressed_value(byte: u8) -> (value: u32)
    ensures
        value == code_value(byte),
{
    CODE_VALUES[byte as usize]
}

/// Looks up the width in bits of the pattern of `byte`.
pub fn get_compressed_value_bit_count(byte: u8) -> (bit_count: u8)
    ensures
        bit_count == code_bit_count(byte),
        2 <= bit_count <= MAX_CODE_BIT_COUNT,
{
    CODE_BIT_COUNTS[byte as usize]
}

/// Every entry is 2 to 11 bits wide and its pattern fits in its width.
pub proof fn lemma_code_fits(byte: u8)
    ensures
        2 <= code_bit_count(byte) <= MAX_CODE_BIT_COUNT,
        code_value(byte) < pow2(code_bit_count(byte) as nat),
{
    lemma2_to64();
}

} // verus!
