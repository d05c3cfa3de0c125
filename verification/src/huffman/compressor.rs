//! The compressor: bytes go in one at a time, and the bytes of the compressed
//! stream come out as soon as they are complete.

pub mod buffer;

use vstd::prelude::*;
use crate::huffman::bits::{bits_value, low_bits, pad_to_byte, zero_bits};
use crate::huffman::compressor::buffer::CompressorBuffer;
use crate::huffman::huffman_table::{
    code_bits, get_compressed_value, get_compressed_value_bit_count, terminal_bits,
    TERMINAL_CODE_BIT_COUNT, TERMINAL_CODE_VALUE,
};

verus! {

/// A compressor in the middle of one message. Its view is the bits of the
/// compressed stream that were produced and not yet taken out, oldest first.
pub struct Compressor {
    buffer: CompressorBuffer,
}

impl View for Compressor {
    type V = Seq<bool>;

    closed spec fn view(&self) -> Seq<bool> {
        self.buffer@
    }
}

impl Compressor {
    /// A compressor that has produced nothing yet.
    pub fn new() -> (compressor: Self)
        ensures
            compressor@ == Seq::<bool>::empty(),
    {
        Compressor { buffer: CompressorBuffer::new() }
    }

    /// Appends the code of `byte` to the stream.
    pub fn compress_byte(&mut self, byte: u8)
        ensures
            final(self)@ == old(self)@ + code_bits(byte),
    {
        let value = get_compressed_value(byte);
        let bit_count = get_compressed_value_bit_count(byte);
        self.buffer.write_bits(value, bit_count);
    }

    /// Takes the next whole byte of the stream out, if eight bits are waiting.
    pub fn get_compressed_byte(&mut self) -> (byte: Option<u8>)
        ensures
            byte is Some <==> old(self)@.len() >= 8,
            byte matches Some(b) ==> b == bits_value(old(self)@.take(8)) && final(self)@ == old(
                self,
            )@.skip(8),
            byte is None ==> final(self)@ == old(self)@,
    {
        self.buffer.read_byte()
    }

    /// Appends the terminal code, which marks the end of the message.
    pub fn append_terminal_code(&mut self)
        ensures
            final(self)@ == old(self)@ + terminal_bits(),
    {
        self.buffer.write_bits(TERMINAL_CODE_VALUE, TERMINAL_CODE_BIT_COUNT);
    }

    /// Fills the byte in progress with zero bits, so that the stream ends on
    /// a byte boundary.
    pub fn end(&mut self)
        ensures
            final(self)@ == pad_to_byte(old(self)@),
    {
        let padding_bit_count = self.buffer.byte_boundary_offset();
        if padding_bit_count != 0 {
            let padding_value: u32 = 0;
            self.buffer.write_bits(padding_value, padding_bit_count);
            proof {
                lemma_low_bits_of_zero(padding_bit_count as nat);
            }
        } else {
            assert(self@ + zero_bits(0) =~= self@);
        }
    }
}

/// The low-order bits of zero are zero bits.
proof fn lemma_low_bits_of_zero(count: nat)
    ensures
        low_bits(0, count) == zero_bits(count),
    decreases count,
{
    if count > 0 {
        lemma_low_bits_of_zero((count - 1) as nat);
    }
    assert(low_bits(0, count) =~= zero_bits(count));
}

} // verus!
