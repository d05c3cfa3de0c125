//! What a receiver reads out of a compressed stream.
//!
//! Nothing here runs: the decoder is a specification, written against the
//! code table alone, and the laws below state that it reads every compressed
//! stream back to the message it was made from.

use vstd::arithmetic::power2::{lemma2_to64, pow2};
use vstd::prelude::*;
use crate::huffman::bits::{
    bits_value, bytes_to_bits, lemma_bytes_to_bits_of_bits, lemma_low_bits_len,
    lemma_pad_to_byte_len, lemma_value_of_low_bits, low_bits, padding_len, zero_bits,
};
use crate::huffman::huffman_table::{
    code_bit_count, code_bits, code_value, lemma_code_fits, terminal_bits,
    TERMINAL_CODE_BIT_COUNT, TERMINAL_CODE_VALUE,
};
use crate::huffman::{
    code_bit_count_with_terminal, compressed, encoded_bits, lemma_encoded_bits_len, stream_bits,
};

verus! {

/// The symbol that stands for the end of a message; the symbols below it are
/// the byte values.
pub const TERMINAL_SYMBOL: u16 = 256;

/// The bit pattern of a symbol.
pub open spec fn symbol_value(symbol: int) -> nat {
    if symbol == TERMINAL_SYMBOL {
        TERMINAL_CODE_VALUE as nat
    } else {
        code_value(symbol as u8) as nat
    }
}

/// The width in bits of the pattern of a symbol.
pub open spec fn symbol_bit_count(symbol: int) -> nat {
    if symbol == TERMINAL_SYMBOL {
        TERMINAL_CODE_BIT_COUNT as nat
    } else {
        code_bit_count(symbol as u8) as nat
    }
}

/// The code of a symbol as it is transmitted.
pub open spec fn symbol_bits(symbol: int) -> Seq<bool> {
    low_bits(symbol_value(symbol), symbol_bit_count(symbol))
}

/// Whether `bits` begins with the code of `symbol`.
pub open spec fn begins_with(bits: Seq<bool>, symbol: int) -> bool {
    &&& symbol_bit_count(symbol) <= bits.len()
    &&& bits.take(symbol_bit_count(symbol) as int) == symbol_bits(symbol)
}

/// The first symbol, from `from` on, whose code `bits` begins with; 257 where
/// there is none.
pub open spec fn leading_symbol(bits: Seq<bool>, from: int) -> int
    decreases TERMINAL_SYMBOL + 1 - from,
{
    if from > TERMINAL_SYMBOL {
        TERMINAL_SYMBOL + 1
    } else if begins_with(bits, from) {
        from
    } else {
        leading_symbol(bits, from + 1)
    }
}

/// Reads a message from `bits`: one byte for each code, up to the terminal
/// code. The result is the message and the bits that follow the terminal
/// code; `None` where the bits end, or match no code, before a terminal code.
pub open spec fn decode_bits(bits: Seq<bool>) -> Option<(Seq<u8>, Seq<bool>)>
    decreases bits.len(),
{
    let symbol = leading_symbol(bits, 0);
    if symbol == TERMINAL_SYMBOL {
        Some((Seq::empty(), bits.skip(TERMINAL_CODE_BIT_COUNT as int)))
    } else if 0 <= symbol < TERMINAL_SYMBOL && 0 < symbol_bit_count(symbol) <= bits.len() {
        match decode_bits(bits.skip(symbol_bit_count(symbol) as int)) {
            Some((message, rest)) => Some((seq![symbol as u8] + message, rest)),
            None => None,
        }
    } else {
        None
    }
}

/// Reads a message from a compressed stream of bytes.
pub open spec fn decode(stream: Seq<u8>) -> Option<(Seq<u8>, Seq<bool>)> {
    decode_bits(bytes_to_bits(stream))
}

/// `value`, read as `bit_count` bits, followed by zero bits up to the width
/// of the widest code: the least 11-bit number that begins with those bits.
spec fn widened(value: nat, bit_count: nat) -> nat {
    if bit_count == 0 {
        2048 * value
    } else if bit_count == 1 {
        1024 * value
    } else if bit_count == 2 {
        512 * value
    } else if bit_count == 3 {
        256 * value
    } else if bit_count == 4 {
        128 * value
    } else if bit_count == 5 {
        64 * value
    } else if bit_count == 6 {
        32 * value
    } else if bit_count == 7 {
        16 * value
    } else if bit_count == 8 {
        8 * value
    } else if bit_count == 9 {
        4 * value
    } else if bit_count == 10 {
        2 * value
    } else {
        value
    }
}

/// The first 11 bits of `bits`, with zero bits where `bits` ends before them.
spec fn window(bits: Seq<bool>) -> Seq<bool> {
    (bits + zero_bits(11)).take(11)
}

/// Every symbol's code is 2 to 11 bits wide and its pattern fits in its
/// width.
proof fn lemma_symbol_fits(symbol: int)
    requires
        0 <= symbol <= TERMINAL_SYMBOL,
    ensures
        2 <= symbol_bit_count(symbol) <= 11,
        symbol_value(symbol) < pow2(symbol_bit_count(symbol)),
        symbol_bits(symbol).len() == symbol_bit_count(symbol),
{
    lemma2_to64();
    if symbol < TERMINAL_SYMBOL {
        lemma_code_fits(symbol as u8);
    }
    lemma_low_bits_len(symbol_value(symbol), symbol_bit_count(symbol));
}

/// Whether the 11-bit numbers that begin with the code of `s` all lie below
/// those that begin with the code of `t`, or all above them.
spec fn apart(s: int, t: int) -> bool {
    ||| widened(symbol_value(s) + 1, symbol_bit_count(s)) <= widened(
        symbol_value(t),
        symbol_bit_count(t),
    )
    ||| widened(symbol_value(t) + 1, symbol_bit_count(t)) <= widened(
        symbol_value(s),
        symbol_bit_count(s),
    )
}

/// The codes of two symbols lie apart; here for the lower half of the table.
#[verifier::rlimit(100)]
proof fn lemma_codes_apart_lower(s: int, t: int)
    requires
        0 <= s < 128,
        s < t <= TERMINAL_SYMBOL,
    ensures
        apart(s, t),
{
}

/// The codes of two symbols lie apart; here for the upper half of the table.
#[verifier::rlimit(100)]
proof fn lemma_codes_apart_upper(s: int, t: int)
    requires
        128 <= s,
        s < t <= TERMINAL_SYMBOL,
    ensures
        apart(s, t),
{
}

/// The 11-bit numbers that begin with one symbol's code lie apart from those
/// that begin with another's: no code is the beginning of another code.
proof fn lemma_codes_apart(s: int, t: int)
    requires
        0 <= s <= TERMINAL_SYMBOL,
        0 <= t <= TERMINAL_SYMBOL,
        s != t,
    ensures
        apart(s, t),
{
    let (low, high) = if s < t { (s, t) } else { (t, s) };
    if low < 128 {
        lemma_codes_apart_lower(low, high);
    } else {
        lemma_codes_apart_upper(low, high);
    }
}

/// Eleven bits spell a number between the least and the greatest that begin
/// with their first `k` bits.
proof fn lemma_window_bounds(bits: Seq<bool>, k: nat)
    requires
        bits.len() == 11,
        k <= 11,
    ensures
        widened(bits_value(bits.take(k as int)), k) <= bits_value(bits) < widened(
            bits_value(bits.take(k as int)) + 1,
            k,
        ),
    decreases 11 - k,
{
    if k == 11 {
        assert(bits.take(11) =~= bits);
    } else {
        lemma_window_bounds(bits, k + 1);
        assert(bits.take(k as int + 1).drop_last() =~= bits.take(k as int));
    }
}

/// Bits that begin with a symbol's code spell, in their first 11 bits, a
/// number that begins with that code.
proof fn lemma_code_window(bits: Seq<bool>, symbol: int)
    requires
        0 <= symbol <= TERMINAL_SYMBOL,
        begins_with(bits, symbol),
    ensures
        widened(symbol_value(symbol), symbol_bit_count(symbol)) <= bits_value(window(bits))
            < widened(symbol_value(symbol) + 1, symbol_bit_count(symbol)),
{
    let n = symbol_bit_count(symbol);
    lemma_symbol_fits(symbol);
    assert(window(bits).take(n as int) =~= bits.take(n as int));
    lemma_value_of_low_bits(symbol_value(symbol), n);
    lemma_window_bounds(window(bits), n);
}

/// The table is a prefix code: bits that begin with the code of one symbol
/// do not begin with the code of another. In particular no code is the
/// beginning of another code.
pub proof fn lemma_prefix_code(bits: Seq<bool>, s: int, t: int)
    requires
        0 <= s <= TERMINAL_SYMBOL,
        0 <= t <= TERMINAL_SYMBOL,
        s != t,
        begins_with(bits, s),
    ensures
        !begins_with(bits, t),
{
    if begins_with(bits, t) {
        lemma_code_window(bits, s);
        lemma_code_window(bits, t);
        lemma_codes_apart(s, t);
    }
}

/// Of bits that begin with a symbol's code, that symbol is the first whose
/// code they begin with.
proof fn lemma_leading_symbol(bits: Seq<bool>, symbol: int, from: int)
    requires
        0 <= from <= symbol <= TERMINAL_SYMBOL,
        begins_with(bits, symbol),
    ensures
        leading_symbol(bits, from) == symbol,
    decreases symbol - from,
{
    if from < symbol {
        lemma_prefix_code(bits, symbol, from);
        lemma_leading_symbol(bits, symbol, from + 1);
    }
}

/// The encoded bits of a message begin with the code of its first byte.
proof fn lemma_encoded_bits_front(input: Seq<u8>)
    requires
        input.len() > 0,
    ensures
        encoded_bits(input) == code_bits(input[0]) + encoded_bits(input.skip(1)),
    decreases input.len(),
{
    if input.len() == 1 {
        assert(input.drop_last() =~= Seq::<u8>::empty());
        assert(input.skip(1) =~= Seq::<u8>::empty());
        assert(encoded_bits(input) =~= code_bits(input[0]) + encoded_bits(input.skip(1)));
    } else {
        lemma_encoded_bits_front(input.drop_last());
        assert(input.drop_last().skip(1) =~= input.skip(1).drop_last());
        assert(encoded_bits(input) =~= code_bits(input[0]) + encoded_bits(input.skip(1)));
    }
}

/// The decoder reads the codes of a message and the terminal code back to the
/// message, whatever follows them, and leaves what follows.
pub proof fn lemma_decode_encoded(input: Seq<u8>, tail: Seq<bool>)
    ensures
        decode_bits((encoded_bits(input) + terminal_bits()) + tail) == Some((input, tail)),
    decreases input.len(),
{
    let bits = (encoded_bits(input) + terminal_bits()) + tail;
    if input.len() == 0 {
        lemma_symbol_fits(TERMINAL_SYMBOL as int);
        assert(bits.take(TERMINAL_CODE_BIT_COUNT as int) =~= terminal_bits());
        lemma_leading_symbol(bits, TERMINAL_SYMBOL as int, 0);
        assert(bits.skip(TERMINAL_CODE_BIT_COUNT as int) =~= tail);
        assert(input =~= Seq::<u8>::empty());
    } else {
        let first = input[0];
        let rest = input.skip(1);
        let after = (encoded_bits(rest) + terminal_bits()) + tail;
        lemma_encoded_bits_front(input);
        lemma_symbol_fits(first as int);
        assert(bits =~= code_bits(first) + after);
        assert(bits.take(code_bit_count(first) as int) =~= code_bits(first));
        lemma_leading_symbol(bits, first as int, 0);
        assert(bits.skip(code_bit_count(first) as int) =~= after);
        lemma_decode_encoded(rest, tail);
        assert(seq![first] + rest =~= input);
    }
}

/// Decoding a compressed stream gives the message back, and after it the
/// padding: fewer than eight bits, all zero.
pub proof fn lemma_decode_compressed(input: Seq<u8>)
    ensures
        decode(compressed(input)) == Some(
            (input, zero_bits(padding_len(code_bit_count_with_terminal(input)))),
        ),
        padding_len(code_bit_count_with_terminal(input)) < 8,
{
    let codes = encoded_bits(input) + terminal_bits();
    lemma_encoded_bits_len(input);
    lemma_symbol_fits(TERMINAL_SYMBOL as int);
    lemma_pad_to_byte_len(codes);
    lemma_bytes_to_bits_of_bits(stream_bits(input));
    lemma_decode_encoded(input, zero_bits(padding_len(codes.len())));
}

/// Messages with the same compressed stream are the same message.
pub proof fn lemma_compressed_injective(first: Seq<u8>, second: Seq<u8>)
    requires
        compressed(first) == compressed(second),
    ensures
        first == second,
{
    lemma_decode_compressed(first);
    lemma_decode_compressed(second);
}

/// Decoding the compressed stream of a single byte gives that byte and the
/// terminal marker back, for every byte value.
pub proof fn lemma_decode_compressed_byte(byte: u8)
    ensures
        decode(compressed(seq![byte])) matches Some((message, padding)) && message == seq![byte]
            && padding == zero_bits(padding.len()) && padding.len() < 8,
{
    lemma_decode_compressed(seq![byte]);
}

} // verus!
