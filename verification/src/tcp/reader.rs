//! Reading the fields of a packet: big-endian integers and fixed-width text.
//! A reader takes its field off the front of the input and moves the input
//! past it.

use vstd::prelude::*;
use vstd::string::StringSliceAdditionalSpecFns;
use vstd::utf8::{decode_utf8, encode_utf8, encode_utf8_decode_utf8, valid_utf8};

verus! {

/// Why a packet could not be decoded.
#[derive(Debug, Clone, Copy, PartialEq, Eq, Structural)]
pub enum DecodeError {
    /// Fewer bytes are left than the field or packet needs.
    IncompleteBuffer,
    /// A text field does not hold UTF-8.
    InvalidUtf8,
}

#[verifier::external_type_specification]
#[verifier::external_body]
pub struct ExUtf8Error(core::str::Utf8Error);

/// `core::str::from_utf8` succeeds exactly on well-formed UTF-8, and the text
/// it returns is made of the bytes it was given.
pub assume_specification[ core::str::from_utf8 ](v: &[u8]) -> (r: Result<
    &str,
    core::str::Utf8Error,
>)
    ensures
        r is Ok <==> valid_utf8(v@),
        r matches Ok(s) ==> s.spec_bytes() == v@,
;

/// The number that two bytes spell, high byte first.
pub open spec fn be_u16(bytes: Seq<u8>) -> u16 {
    (bytes[0] * 0x100 + bytes[1]) as u16
}

/// The number that four bytes spell, high byte first.
pub open spec fn be_u32(bytes: Seq<u8>) -> u32 {
    (bytes[0] * 0x100_0000 + bytes[1] * 0x1_0000 + bytes[2] * 0x100 + bytes[3]) as u32
}

/// Reads one byte.
pub fn read_u8(input: &mut &[u8]) -> (r: Result<u8, DecodeError>)
    ensures
        match r {
            Ok(value) => {
                &&& old(input)@.len() >= 1
                &&& value == old(input)@[0]
                &&& final(input)@ == old(input)@.skip(1)
            },
            Err(error) => {
                &&& error == DecodeError::IncompleteBuffer
                &&& old(input)@.len() < 1
                &&& final(input)@ == old(input)@
            },
        },
{
    if input.len() < 1 {
        return Err(DecodeError::IncompleteBuffer);
    }
    let (int_bytes, rest) = input.split_at(1);
    *input = rest;
    Ok(int_bytes[0])
}

/// Reads a big-endian integer of two bytes.
pub fn read_u16(input: &mut &[u8]) -> (r: Result<u16, DecodeError>)
    ensures
        match r {
            Ok(value) => {
                &&& old(input)@.len() >= 2
                &&& value == be_u16(old(input)@.take(2))
                &&& final(input)@ == old(input)@.skip(2)
            },
            Err(error) => {
                &&& error == DecodeError::IncompleteBuffer
                &&& old(input)@.len() < 2
                &&& final(input)@ == old(input)@
            },
        },
{
    if input.len() < 2 {
        return Err(DecodeError::IncompleteBuffer);
    }
    let (int_bytes, rest) = input.split_at(2);
    *input = rest;
    Ok(int_bytes[0] as u16 * 0x100 + int_bytes[1] as u16)
}

/// Reads a big-endian integer of four bytes.
pub fn read_u32(input: &mut &[u8]) -> (r: Result<u32, DecodeError>)
    ensures
        match r {
            Ok(value) => {
                &&& old(input)@.len() >= 4
                &&& value == be_u32(old(input)@.take(4))
                &&& final(input)@ == old(input)@.skip(4)
            },
            Err(error) => {
                &&& error == DecodeError::IncompleteBuffer
                &&& old(input)@.len() < 4
                &&& final(input)@ == old(input)@
            },
        },
{
    if input.len() < 4 {
        return Err(DecodeError::IncompleteBuffer);
    }
    let (int_bytes, rest) = input.split_at(4);
    *input = rest;
    Ok(
        int_bytes[0] as u32 * 0x100_0000 + int_bytes[1] as u32 * 0x1_0000 + int_bytes[2] as u32
            * 0x100 + int_bytes[3] as u32,
    )
}

/// Reads a text field of `length` bytes. The text is that of the whole
/// field, byte for byte: NUL bytes that pad the field are part of it. Where
/// the field does not hold UTF-8, the input has moved past the field all the
/// same.
pub fn read_string(input: &mut &[u8], length: u8) -> (r: Result<String, DecodeError>)
    ensures
        match r {
            Ok(text) => {
                &&& old(input)@.len() >= length
                &&& valid_utf8(old(input)@.take(length as int))
                &&& text@ == decode_utf8(old(input)@.take(length as int))
                &&& encode_utf8(text@) == old(input)@.take(length as int)
                &&& final(input)@ == old(input)@.skip(length as int)
            },
            Err(DecodeError::IncompleteBuffer) => {
                &&& old(input)@.len() < length
                &&& final(input)@ == old(input)@
            },
            Err(DecodeError::InvalidUtf8) => {
                &&& old(input)@.len() >= length
                &&& !valid_utf8(old(input)@.take(length as int))
                &&& final(input)@ == old(input)@.skip(length as int)
            },
        },
{
    if input.len() < length as usize {
        return Err(DecodeError::IncompleteBuffer);
    }
    let (string_bytes, rest) = input.split_at(length as usize);
    *input = rest;
    match core::str::from_utf8(string_bytes) {
        Ok(text) => {
            proof {
                encode_utf8_decode_utf8(text@);
            }
            Ok(text.to_owned())
        },
        Err(_) => Err(DecodeError::InvalidUtf8),
    }
}

} // verus!
