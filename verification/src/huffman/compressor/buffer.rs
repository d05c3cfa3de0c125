//! The bit buffer of the compressor: codes of any width go in, whole bytes
//! come out.

use std::collections::VecDeque;
use vstd::arithmetic::power2::{lemma2_to64, lemma_pow2_unfold, pow2};
use vstd::prelude::*;
use crate::huffman::bits::{
    bits_value, bytes_to_bits, lemma_bytes_to_bits_push, lemma_bytes_to_bits_skip,
    lemma_low_bits_index, lemma_low_bits_len, lemma_value_of_byte_bits, low_bits, padding_len,
};

verus! {

/// The byte in progress: its bits so far, as a number, and how many they are.
struct Pending {
    value: u8,
    bits: u8,
}

impl Pending {
    #[verifier::type_invariant]
    spec fn well_formed(self) -> bool {
        &&& self.bits < 8
        &&& self.value < pow2(self.bits as nat)
    }
}

/// A first-in, first-out store of bits. Its view is the bits written and not
/// yet read, oldest first.
pub struct CompressorBuffer {
    completed: VecDeque<u8>,
    pending: Pending,
}

impl View for CompressorBuffer {
    type V = Seq<bool>;

    closed spec fn view(&self) -> Seq<bool> {
        bytes_to_bits(self.completed@) + low_bits(
            self.pending.value as nat,
            self.pending.bits as nat,
        )
    }
}

impl CompressorBuffer {
    /// An empty buffer.
    pub fn new() -> (buffer: Self)
        ensures
            buffer@ == Seq::<bool>::empty(),
    {
        proof {
            lemma2_to64();
        }
        let buffer = CompressorBuffer {
            completed: VecDeque::new(),
            pending: Pending { value: 0, bits: 0 },
        };
        assert(buffer@ =~= Seq::<bool>::empty());
        buffer
    }

    /// Appends the `bit_count` low-order bits of `value`, most significant
    /// first.
    pub fn write_bits(&mut self, value: u32, bit_count: u8)
        requires
            bit_count <= 32,
        ensures
            final(self)@ == old(self)@ + low_bits(value as nat, bit_count as nat),
    {
        let ghost start = self@;
        let ghost code = low_bits(value as nat, bit_count as nat);
        proof {
            lemma_low_bits_len(value as nat, bit_count as nat);
            assert(start + code.take(0) =~= start);
        }
        let mut remaining: u8 = bit_count;
        while remaining > 0
            invariant
                remaining <= bit_count <= 32,
                code == low_bits(value as nat, bit_count as nat),
                code.len() == bit_count,
                self@ == start + code.take(bit_count - remaining),
            decreases remaining,
        {
            remaining -= 1;
            let shift: u32 = remaining as u32;
            let bit: bool = (value >> shift) & 1 == 1;
            proof {
                let k = bit_count - 1 - remaining;
                lemma_low_bits_index(value, bit_count as nat, k);
                assert(code.take(k + 1) =~= code.take(k).push(code[k]));
            }
            self.push_bit(bit);
        }
        proof {
            assert(code.take(bit_count as int) =~= code);
        }
    }

    /// Appends one bit.
    fn push_bit(&mut self, bit: bool)
        ensures
            final(self)@ == old(self)@.push(bit),
    {
        proof {
            use_type_invariant(&self.pending);
            lemma2_to64();
            lemma_pow2_unfold((self.pending.bits + 1) as nat);
        }
        let ghost before = self@;
        let ghost bytes = self.completed@;
        let value: u8 = self.pending.value * 2 + if bit { 1 } else { 0 };
        assert(low_bits(value as nat, (self.pending.bits + 1) as nat) == low_bits(
            self.pending.value as nat,
            self.pending.bits as nat,
        ).push(bit));
        if self.pending.bits == 7 {
            self.completed.push_back(value);
            self.pending = Pending { value: 0, bits: 0 };
            proof {
                lemma_bytes_to_bits_push(bytes, value);
                assert(self@ =~= before.push(bit));
            }
        } else {
            self.pending = Pending { value, bits: self.pending.bits + 1 };
            proof {
                assert(self@ =~= before.push(bit));
            }
        }
    }

    /// Takes the oldest eight bits out as a byte, if there are eight.
    pub fn read_byte(&mut self) -> (byte: Option<u8>)
        ensures
            byte is Some <==> old(self)@.len() >= 8,
            byte matches Some(b) ==> b == bits_value(old(self)@.take(8)) && final(self)@ == old(
                self,
            )@.skip(8),
            byte is None ==> final(self)@ == old(self)@,
    {
        proof {
            use_type_invariant(&self.pending);
            lemma_low_bits_len(self.pending.value as nat, self.pending.bits as nat);
        }
        let ghost before = self@;
        let ghost bytes = self.completed@;
        let byte = self.completed.pop_front();
        proof {
            if let Some(b) = byte {
                lemma_bytes_to_bits_skip(bytes);
                lemma_value_of_byte_bits(b);
                assert(bytes.subrange(1, bytes.len() as int) =~= bytes.skip(1));
                assert(before.take(8) =~= low_bits(b as nat, 8));
                assert(self@ =~= before.skip(8));
            }
        }
        byte
    }

    /// How many bits of the byte in progress are still unfilled: 0 on a byte
    /// boundary, else 1 to 7.
    pub fn byte_boundary_offset(&self) -> (offset: u8)
        ensures
            offset == padding_len(self@.len()),
    {
        proof {
            use_type_invariant(&self.pending);
            lemma_low_bits_len(self.pending.value as nat, self.pending.bits as nat);
        }
        if self.pending.bits == 0 {
            0
        } else {
            8 - self.pending.bits
        }
    }
}

} // verus!
