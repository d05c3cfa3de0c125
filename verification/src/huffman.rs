//! Huffman compression of outbound packets.
//!
//! A message is compressed byte by byte: each byte is replaced by its code
//! from the static table, the terminal code follows the last byte, and zero
//! bits fill the last byte of the stream.

pub mod bits;
pub mod compressor;
pub mod decoder;
pub mod huffman_table;

use vstd::prelude::*;
use crate::huffman::bits::{
    bits_to_bytes, bits_value, bytes_to_bits, lemma_bits_to_bytes_of_bytes,
    lemma_bits_value_of_byte, lemma_bytes_to_bits_of_bits, lemma_bytes_to_bits_push,
    lemma_low_bits_len, lemma_low_bits_of_value, lemma_pad_to_byte_len, low_bits, pad_to_byte,
};
use crate::huffman::compressor::Compressor;
use crate::huffman::huffman_table::{
    code_bit_count, code_bits, code_value, terminal_bits, TERMINAL_CODE_BIT_COUNT,
    TERMINAL_CODE_VALUE,
};

verus! {

/// The codes of the bytes of `input`, one after the other.
pub open spec fn encoded_bits(input: Seq<u8>) -> Seq<bool>
    decreases input.len(),
{
    if input.len() == 0 {
        Seq::empty()
    } else {
        encoded_bits(input.drop_last()) + code_bits(input.last())
    }
}

/// The compressed stream of `input` bit by bit: the codes of its bytes, the
/// terminal code, and zero bits up to the byte boundary.
pub open spec fn stream_bits(input: Seq<u8>) -> Seq<bool> {
    pad_to_byte(encoded_bits(input) + terminal_bits())
}

/// The compressed stream of `input`, as bytes.
pub open spec fn compressed(input: Seq<u8>) -> Seq<u8> {
    bits_to_bytes(stream_bits(input))
}

/// The widths in bits of the codes of the bytes of `input`, summed.
pub open spec fn encoded_bit_count(input: Seq<u8>) -> nat
    decreases input.len(),
{
    if input.len() == 0 {
        0
    } else {
        encoded_bit_count(input.drop_last()) + code_bit_count(input.last()) as nat
    }
}

/// The widths in bits of the codes of the bytes of `input` and of the terminal
/// code, summed.
pub open spec fn code_bit_count_with_terminal(input: Seq<u8>) -> nat {
    encoded_bit_count(input) + TERMINAL_CODE_BIT_COUNT as nat
}

/// `count` rounded up to the next multiple of 8.
pub open spec fn round_up_to_byte(count: nat) -> nat {
    ((count + 7) / 8 * 8) as nat
}

/// Compresses `src` and appends the compressed stream to `output`.
pub fn compress(src: Vec<u8>, output: &mut Vec<u8>)
    ensures
        final(output)@ == old(output)@ + compressed(src@),
{
    let ghost before = output@;
    let ghost kept = output@.len();
    let mut compressor = Compressor::new();
    proof {
        assert(src@.take(0) =~= Seq::<u8>::empty());
        lemma_nothing_emitted(output@, compressor@);
    }
    let mut i: usize = 0;
    while i < src.len()
        invariant
            i <= src.len(),
            kept == before.len(),
            kept <= output@.len(),
            output@.take(kept as int) == before,
            bytes_to_bits(output@.skip(kept as int)) + compressor@ == encoded_bits(
                src@.take(i as int),
            ),
        decreases src.len() - i,
    {
        let ghost emitted = bytes_to_bits(output@.skip(kept as int));
        let ghost waiting = compressor@;
        compressor.compress_byte(src[i]);
        proof {
            lemma_encoded_bits_step(src@, i as int);
            lemma_concat_assoc(emitted, waiting, code_bits(src@[i as int]));
        }
        drain(&mut compressor, output, Ghost(kept));
        i += 1;
    }
    let ghost emitted = output@.skip(kept as int);
    let ghost waiting = compressor@;
    compressor.append_terminal_code();
    compressor.end();
    proof {
        assert(src@.take(src@.len() as int) =~= src@);
        lemma_pad_after_bytes(emitted, waiting, terminal_bits());
    }
    drain(&mut compressor, output, Ghost(kept));
    proof {
        lemma_pad_to_byte_len(encoded_bits(src@) + terminal_bits());
        lemma_all_emitted(output@, kept, compressor@, stream_bits(src@));
    }
}

/// Before anything is emitted, what was emitted and what waits is nothing.
proof fn lemma_nothing_emitted(output: Seq<u8>, waiting: Seq<bool>)
    requires
        waiting.len() == 0,
    ensures
        output.take(output.len() as int) == output,
        bytes_to_bits(output.skip(output.len() as int)) + waiting == encoded_bits(
            Seq::<u8>::empty(),
        ),
{
    assert(output.take(output.len() as int) =~= output);
    assert(bytes_to_bits(output.skip(output.len() as int)) + waiting =~= Seq::<bool>::empty());
}

/// One more byte of input adds its code to the encoded bits.
proof fn lemma_encoded_bits_step(input: Seq<u8>, i: int)
    requires
        0 <= i < input.len(),
    ensures
        encoded_bits(input.take(i + 1)) == encoded_bits(input.take(i)) + code_bits(input[i]),
{
    assert(input.take(i + 1).drop_last() =~= input.take(i));
}

/// Appending in two steps is appending in one.
proof fn lemma_concat_assoc(a: Seq<bool>, b: Seq<bool>, c: Seq<bool>)
    ensures
        a + (b + c) == (a + b) + c,
{
    assert(a + (b + c) =~= (a + b) + c);
}

/// Whole bytes before a stream do not change its padding.
proof fn lemma_pad_after_bytes(emitted: Seq<u8>, waiting: Seq<bool>, last: Seq<bool>)
    ensures
        bytes_to_bits(emitted) + pad_to_byte(waiting + last) == pad_to_byte(
            (bytes_to_bits(emitted) + waiting) + last,
        ),
{
    let head = bytes_to_bits(emitted);
    assert((head + waiting + last).len() % 8 == (waiting + last).len() % 8);
    assert(head + pad_to_byte(waiting + last) =~= pad_to_byte((head + waiting) + last));
}

/// When less than a byte waits and the stream is whole bytes long, nothing
/// waits, and the bytes emitted are the stream.
proof fn lemma_all_emitted(output: Seq<u8>, kept: nat, waiting: Seq<bool>, stream: Seq<bool>)
    requires
        kept <= output.len(),
        waiting.len() < 8,
        stream.len() % 8 == 0,
        bytes_to_bits(output.skip(kept as int)) + waiting == stream,
    ensures
        output == output.take(kept as int) + bits_to_bytes(stream),
{
    let emitted = output.skip(kept as int);
    assert(bytes_to_bits(emitted).len() == 8 * emitted.len());
    assert(waiting.len() == 0);
    assert(bytes_to_bits(emitted) =~= stream);
    lemma_bits_to_bytes_of_bytes(emitted);
    assert(output =~= output.take(kept as int) + emitted);
}

/// Moves every whole byte that waits in `compressor` to the end of `output`.
/// `kept` marks a place in `output` before which it holds other bytes.
fn drain(compressor: &mut Compressor, output: &mut Vec<u8>, Ghost(kept): Ghost<nat>)
    requires
        kept <= old(output)@.len(),
    ensures
        old(output)@.len() <= final(output)@.len(),
        final(output)@.take(old(output)@.len() as int) == old(output)@,
        bytes_to_bits(final(output)@.skip(kept as int)) + final(compressor)@ == bytes_to_bits(
            old(output)@.skip(kept as int),
        ) + old(compressor)@,
        final(compressor)@.len() < 8,
{
    let ghost before = output@;
    let ghost total = bytes_to_bits(output@.skip(kept as int)) + compressor@;
    loop
        invariant
            kept <= before.len() <= output@.len(),
            output@.take(before.len() as int) == before,
            bytes_to_bits(output@.skip(kept as int)) + compressor@ == total,
        ensures
            compressor@.len() < 8,
        decreases compressor@.len(),
    {
        let ghost emitted = output@.skip(kept as int);
        let ghost waiting = compressor@;
        match compressor.get_compressed_byte() {
            Some(byte) => {
                output.push(byte);
                proof {
                    lemma_low_bits_of_value(waiting.take(8));
                    lemma_bytes_to_bits_push(emitted, byte);
                    assert(output@.skip(kept as int) =~= emitted.push(byte));
                    assert((bytes_to_bits(emitted) + waiting.take(8)) + waiting.skip(8)
                        =~= bytes_to_bits(emitted) + waiting);
                }
            },
            None => {
                break ;
            },
        }
    }
}

/// The encoded bits of a message are as many as the widths of its codes.
pub proof fn lemma_encoded_bits_len(input: Seq<u8>)
    ensures
        encoded_bits(input).len() == encoded_bit_count(input),
    decreases input.len(),
{
    if input.len() > 0 {
        lemma_encoded_bits_len(input.drop_last());
        lemma_low_bits_len(code_value(input.last()) as nat, code_bit_count(input.last()) as nat);
    }
}

/// The length of a compressed stream: in bits, the widths of the codes of the
/// message and of the terminal code, rounded up to the next multiple of 8.
/// The stream begins with those codes, and every bit after them is zero.
pub proof fn lemma_compressed_length(input: Seq<u8>)
    ensures
        8 * compressed(input).len() == round_up_to_byte(code_bit_count_with_terminal(input)),
        bytes_to_bits(compressed(input)).take(code_bit_count_with_terminal(input) as int)
            == encoded_bits(input) + terminal_bits(),
        forall|i: int|
            code_bit_count_with_terminal(input) <= i < 8 * compressed(input).len()
                ==> !#[trigger] bytes_to_bits(compressed(input))[i],
{
    let codes = encoded_bits(input) + terminal_bits();
    lemma_encoded_bits_len(input);
    lemma_low_bits_len(TERMINAL_CODE_VALUE as nat, TERMINAL_CODE_BIT_COUNT as nat);
    lemma_pad_to_byte_len(codes);
    lemma_bytes_to_bits_of_bits(stream_bits(input));
    assert(stream_bits(input).take(codes.len() as int) =~= codes);
}

/// The compressed stream of the empty message is the terminal code and four
/// zero bits: the one byte 0xD0.
pub proof fn lemma_compressed_empty()
    ensures
        compressed(Seq::<u8>::empty()) == seq![0xD0u8],
{
    let stream = stream_bits(Seq::<u8>::empty());
    let terminal = seq![true, true, false, true];
    assert(terminal_bits() =~= terminal) by {
        reveal_with_fuel(low_bits, 5);
    }
    assert(encoded_bits(Seq::<u8>::empty()) + terminal_bits() =~= terminal);
    assert(stream =~= seq![true, true, false, true, false, false, false, false]);
    assert(stream.subrange(0, 8) =~= stream);
    assert(bits_value(stream) == 0xD0) by {
        lemma_bits_value_of_byte(stream);
    }
    assert(compressed(Seq::<u8>::empty()) =~= seq![0xD0u8]);
}

} // verus!
