//! Bit sequences, as the compressed stream is described: a `Seq<bool>` in
//! transmission order, the most significant bit of every code and byte first.

use vstd::arithmetic::power2::{lemma2_to64, lemma_pow2_unfold, pow2};
use vstd::prelude::*;

verus! {

/// The `count` low-order bits of `value`, most significant first.
pub open spec fn low_bits(value: nat, count: nat) -> Seq<bool>
    decreases count,
{
    if count == 0 {
        Seq::empty()
    } else {
        low_bits(value / 2, (count - 1) as nat).push(value % 2 == 1)
    }
}

/// The number that `bits` spell in binary, most significant first.
pub open spec fn bits_value(bits: Seq<bool>) -> nat
    decreases bits.len(),
{
    if bits.len() == 0 {
        0
    } else {
        2 * bits_value(bits.drop_last()) + if bits.last() { 1nat } else { 0nat }
    }
}

/// `count` zero bits.
pub open spec fn zero_bits(count: nat) -> Seq<bool> {
    Seq::new(count, |i: int| false)
}

/// The bits of a byte sequence, each byte most significant bit first.
pub open spec fn bytes_to_bits(bytes: Seq<u8>) -> Seq<bool> {
    Seq::new(8 * bytes.len(), |i: int| low_bits(bytes[i / 8] as nat, 8)[i % 8])
}

/// The bytes that a bit sequence spells, eight bits to a byte. Bits after the
/// last whole byte are left out.
pub open spec fn bits_to_bytes(bits: Seq<bool>) -> Seq<u8> {
    Seq::new(bits.len() / 8, |j: int| bits_value(bits.subrange(8 * j, 8 * j + 8)) as u8)
}

/// How many zero bits bring a stream of `len` bits to a byte boundary.
pub open spec fn padding_len(len: nat) -> nat {
    ((8 - len % 8) % 8) as nat
}

/// `bits` followed by zero bits up to the next byte boundary.
pub open spec fn pad_to_byte(bits: Seq<bool>) -> Seq<bool> {
    bits + zero_bits(padding_len(bits.len()))
}

pub proof fn lemma_low_bits_len(value: nat, count: nat)
    ensures
        low_bits(value, count).len() == count,
    decreases count,
{
    if count > 0 {
        lemma_low_bits_len(value / 2, (count - 1) as nat);
    }
}

/// Bit `k` of `low_bits(value, count)` is bit `count - 1 - k` of `value`.
pub proof fn lemma_low_bits_index(value: u32, count: nat, k: int)
    requires
        0 <= k < count <= 32,
    ensures
        low_bits(value as nat, count).len() == count,
        low_bits(value as nat, count)[k] == ((value >> ((count - 1 - k) as u32)) & 1 == 1),
    decreases count,
{
    lemma_low_bits_len(value as nat, count);
    if k == count - 1 {
        assert((value % 2 == 1) == ((value >> 0u32) & 1 == 1)) by (bit_vector);
    } else {
        let half: u32 = value / 2;
        let shift: u32 = (count - 2 - k) as u32;
        lemma_low_bits_index(half, (count - 1) as nat, k);
        lemma_low_bits_len(half as nat, (count - 1) as nat);
        assert((half >> shift) == (value >> ((shift + 1) as u32))) by (bit_vector)
            requires
                half == value / 2,
                shift < 31,
        ;
    }
}

/// Spelling a number with as many bits as it was read from gives the bits back.
pub proof fn lemma_low_bits_of_value(bits: Seq<bool>)
    ensures
        low_bits(bits_value(bits), bits.len()) == bits,
    decreases bits.len(),
{
    if bits.len() > 0 {
        lemma_low_bits_of_value(bits.drop_last());
        assert(bits.drop_last().push(bits.last()) =~= bits);
    }
}

/// A number read from `bits` is below two to the number of bits; here for the
/// widths that a byte needs.
pub proof fn lemma_bits_value_bound(bits: Seq<bool>)
    requires
        bits.len() <= 8,
    ensures
        bits_value(bits) < 256,
        bits.len() <= 7 ==> bits_value(bits) < 128,
{
    reveal_with_fuel(bits_value, 9);
}

/// A number that fits in `count` bits is read back from them unchanged.
pub proof fn lemma_value_of_low_bits(value: nat, count: nat)
    requires
        value < pow2(count),
    ensures
        bits_value(low_bits(value, count)) == value,
    decreases count,
{
    if count > 0 {
        let rest = low_bits(value / 2, (count - 1) as nat);
        lemma_pow2_unfold(count);
        lemma_value_of_low_bits(value / 2, (count - 1) as nat);
        assert(rest.push(value % 2 == 1).drop_last() =~= rest);
    } else {
        lemma2_to64();
    }
}

/// The number that eight bits spell, written out.
pub proof fn lemma_bits_value_of_byte(bits: Seq<bool>)
    requires
        bits.len() == 8,
    ensures
        bits_value(bits) == 128 * bit(bits[0]) + 64 * bit(bits[1]) + 32 * bit(bits[2]) + 16 * bit(
            bits[3],
        ) + 8 * bit(bits[4]) + 4 * bit(bits[5]) + 2 * bit(bits[6]) + bit(bits[7]),
{
    let b7 = bits.drop_last();
    let b6 = b7.drop_last();
    let b5 = b6.drop_last();
    let b4 = b5.drop_last();
    let b3 = b4.drop_last();
    let b2 = b3.drop_last();
    let b1 = b2.drop_last();
    let b0 = b1.drop_last();
    assert(bits_value(b0) == 0);
    assert(bits_value(b1) == bit(bits[0]));
    assert(bits_value(b2) == 2 * bits_value(b1) + bit(bits[1]));
    assert(bits_value(b3) == 2 * bits_value(b2) + bit(bits[2]));
    assert(bits_value(b4) == 2 * bits_value(b3) + bit(bits[3]));
    assert(bits_value(b5) == 2 * bits_value(b4) + bit(bits[4]));
    assert(bits_value(b6) == 2 * bits_value(b5) + bit(bits[5]));
    assert(bits_value(b7) == 2 * bits_value(b6) + bit(bits[6]));
    assert(bits_value(bits) == 2 * bits_value(b7) + bit(bits[7]));
}

/// A bit as a number.
pub open spec fn bit(b: bool) -> nat {
    if b {
        1
    } else {
        0
    }
}

/// Reading the eight bits of a byte gives the byte back.
pub proof fn lemma_value_of_byte_bits(byte: u8)
    ensures
        low_bits(byte as nat, 8).len() == 8,
        bits_value(low_bits(byte as nat, 8)) == byte,
{
    lemma_low_bits_len(byte as nat, 8);
    lemma2_to64();
    lemma_value_of_low_bits(byte as nat, 8);
}

pub proof fn lemma_bytes_to_bits_push(bytes: Seq<u8>, byte: u8)
    ensures
        bytes_to_bits(bytes.push(byte)) == bytes_to_bits(bytes) + low_bits(byte as nat, 8),
{
    lemma_low_bits_len(byte as nat, 8);
    assert(bytes_to_bits(bytes.push(byte)) =~= bytes_to_bits(bytes) + low_bits(byte as nat, 8));
}

pub proof fn lemma_bytes_to_bits_skip(bytes: Seq<u8>)
    requires
        bytes.len() > 0,
    ensures
        bytes_to_bits(bytes).take(8) == low_bits(bytes[0] as nat, 8),
        bytes_to_bits(bytes).skip(8) == bytes_to_bits(bytes.skip(1)),
{
    lemma_low_bits_len(bytes[0] as nat, 8);
    assert(bytes_to_bits(bytes).take(8) =~= low_bits(bytes[0] as nat, 8));
    assert(bytes_to_bits(bytes).skip(8) =~= bytes_to_bits(bytes.skip(1))) by {
        assert forall|i: int| 0 <= i < 8 * (bytes.len() - 1) implies bytes_to_bits(bytes).skip(8)[i]
            == bytes_to_bits(bytes.skip(1))[i] by {
            assert((i + 8) / 8 == i / 8 + 1);
            assert((i + 8) % 8 == i % 8);
        }
    }
}

/// Packing the bits of a byte sequence gives the bytes back.
pub proof fn lemma_bits_to_bytes_of_bytes(bytes: Seq<u8>)
    ensures
        bits_to_bytes(bytes_to_bits(bytes)) == bytes,
{
    let bits = bytes_to_bits(bytes);
    assert forall|j: int| 0 <= j < bytes.len() implies bits_to_bytes(bits)[j] == bytes[j] by {
        lemma_low_bits_len(bytes[j] as nat, 8);
        assert(bits.subrange(8 * j, 8 * j + 8) =~= low_bits(bytes[j] as nat, 8)) by {
            assert forall|k: int| 0 <= k < 8 implies bits.subrange(8 * j, 8 * j + 8)[k]
                == low_bits(bytes[j] as nat, 8)[k] by {
                assert((8 * j + k) / 8 == j);
                assert((8 * j + k) % 8 == k);
            }
        }
        lemma_value_of_byte_bits(bytes[j]);
    }
    assert(bits_to_bytes(bits) =~= bytes);
}

/// Unpacking the bytes of a whole number of bytes' worth of bits gives the
/// bits back.
pub proof fn lemma_bytes_to_bits_of_bits(bits: Seq<bool>)
    requires
        bits.len() % 8 == 0,
    ensures
        bytes_to_bits(bits_to_bytes(bits)) == bits,
{
    let bytes = bits_to_bytes(bits);
    assert forall|i: int| 0 <= i < bits.len() implies bytes_to_bits(bytes)[i] == bits[i] by {
        let j = i / 8;
        let chunk = bits.subrange(8 * j, 8 * j + 8);
        lemma_bits_value_bound(chunk);
        lemma_low_bits_of_value(chunk);
        assert(chunk[i % 8] == bits[i]);
    }
    assert(bytes_to_bits(bytes) =~= bits);
}

/// A padded stream ends on a byte boundary, with less than a byte of padding.
pub proof fn lemma_pad_to_byte_len(bits: Seq<bool>)
    ensures
        pad_to_byte(bits).len() % 8 == 0,
        bits.len() <= pad_to_byte(bits).len() < bits.len() + 8,
        pad_to_byte(bits).len() == bits.len() + padding_len(bits.len()),
{
}

} // verus!
