//! The outbound packets of the handshake. Each is built in a buffer of its
//! fixed size, field by field at the field's offset; what no field covers is
//! zero.

use byteorder::{BigEndian, ByteOrder};
use vstd::prelude::*;

verus! {

/// Opcode of the server list.
pub const SERVER_LIST_PACKET_ID: u8 = 0xA8;

/// Opcode of the server redirect.
pub const SERVER_REDIRECT_PACKET_ID: u8 = 0x8C;

/// Opcode of the features packet.
pub const FEATURES_PACKET_ID: u8 = 0xB9;

/// Opcode of the character list.
pub const CHARACTER_LIST_PACKET_ID: u8 = 0xA9;

/// Length in bytes of the server list, which holds one server.
pub const SERVER_LIST_PACKET_LENGTH: u16 = 46;

/// Length in bytes of the server redirect.
pub const SERVER_REDIRECT_PACKET_LENGTH: u16 = 11;

/// Length in bytes of the character list, which holds no character and no
/// starting city.
pub const CHARACTER_LIST_PACKET_LENGTH: u16 = 9;

/// The name of the one shard, "My Shard" in ASCII.
pub const SHARD_NAME: [u8; 8] = [0x4D, 0x79, 0x20, 0x53, 0x68, 0x61, 0x72, 0x64];

/// The address of the shard, 127.0.0.1, first octet first.
pub const SHARD_ADDRESS: [u8; 4] = [0x7F, 0x00, 0x00, 0x01];

/// The port of the shard.
pub const SHARD_PORT: u16 = 2593;

/// The key that the redirect hands to the client for its next connection.
pub const REDIRECT_KEY: [u8; 4] = [0x43, 0x2F, 0x3F, 0xF0];

/// The flags of the features packet.
pub const FEATURE_FLAGS: [u8; 4] = [0x00, 0xFF, 0x92, 0xDB];

/// A 16-bit number as two bytes, high byte first.
pub open spec fn be_u16_bytes(n: u16) -> Seq<u8> {
    seq![(n / 0x100) as u8, (n % 0x100) as u8]
}

/// `count` zero bytes.
pub open spec fn zero_bytes(count: nat) -> Seq<u8> {
    Seq::new(count, |i: int| 0u8)
}

/// The server list, 46 bytes: opcode, length, flags, the number of servers
/// (one), and for that server its index, its name in a field of 29 bytes,
/// how full it is, its time zone and its address.
pub open spec fn server_list_bytes() -> Seq<u8> {
    seq![SERVER_LIST_PACKET_ID] + be_u16_bytes(SERVER_LIST_PACKET_LENGTH) + seq![0x00u8]
        + be_u16_bytes(1) + be_u16_bytes(0) + SHARD_NAME@ + zero_bytes(21) + seq![0x00u8]
        + zero_bytes(4) + SHARD_ADDRESS@
}

/// The server redirect, 11 bytes: opcode, address and port of the shard, and
/// the key for the next connection.
pub open spec fn server_redirect_bytes() -> Seq<u8> {
    seq![SERVER_REDIRECT_PACKET_ID] + SHARD_ADDRESS@ + be_u16_bytes(SHARD_PORT) + REDIRECT_KEY@
}

/// The features packet before compression: opcode and flags.
pub open spec fn features_bytes() -> Seq<u8> {
    seq![FEATURES_PACKET_ID] + FEATURE_FLAGS@
}

/// The character list before compression: opcode, length, the number of
/// characters (none), the number of starting cities (none), and four bytes of
/// flags, all zero.
pub open spec fn character_list_bytes() -> Seq<u8> {
    seq![CHARACTER_LIST_PACKET_ID] + be_u16_bytes(CHARACTER_LIST_PACKET_LENGTH) + seq![0x00u8]
        + seq![0x00u8] + zero_bytes(4)
}

/// `byteorder::BigEndian::write_u16` writes a number into two bytes, the high
/// byte first.
#[verifier::external_body]
fn write_u16(n: u16) -> (bytes: [u8; 2])
    ensures
        bytes@ == be_u16_bytes(n),
{
    let mut bytes = [0u8; 2];
    BigEndian::write_u16(&mut bytes, n);
    bytes
}

/// Copies `field` into `buffer` from `offset` on.
fn put(buffer: &mut Vec<u8>, offset: usize, field: &[u8])
    requires
        offset + field@.len() <= old(buffer)@.len(),
    ensures
        final(buffer)@ == old(buffer)@.take(offset as int) + field@ + old(buffer)@.skip(
            offset + field@.len(),
        ),
{
    let ghost before = buffer@;
    let length = buffer.len();
    let mut i: usize = 0;
    while i < field.len()
        invariant
            i <= field@.len(),
            offset + field@.len() <= before.len() == length,
            buffer@ == before.take(offset as int) + field@.take(i as int) + before.skip(
                offset + i,
            ),
        decreases field@.len() - i,
    {
        buffer[offset + i] = field[i];
        i += 1;
    }
    assert(field@.take(field@.len() as int) =~= field@);
}

/// Builds the server list.
pub fn server_list_packet() -> (packet: Vec<u8>)
    ensures
        packet@ == server_list_bytes(),
{
    let mut buffer: Vec<u8> = vec![0u8; 46];
    buffer[0] = SERVER_LIST_PACKET_ID;
    put(&mut buffer, 1, write_u16(SERVER_LIST_PACKET_LENGTH).as_slice());
    buffer[3] = 0x00;
    put(&mut buffer, 4, write_u16(1).as_slice());
    put(&mut buffer, 6, write_u16(0).as_slice());
    put(&mut buffer, 8, SHARD_NAME.as_slice());
    buffer[37] = 0x00;
    put(&mut buffer, 42, SHARD_ADDRESS.as_slice());
    assert(buffer@ =~= server_list_bytes());
    buffer
}

/// Builds the server redirect.
pub fn server_redirect_packet() -> (packet: Vec<u8>)
    ensures
        packet@ == server_redirect_bytes(),
{
    let mut buffer: Vec<u8> = vec![0u8; 11];
    buffer[0] = SERVER_REDIRECT_PACKET_ID;
    put(&mut buffer, 1, SHARD_ADDRESS.as_slice());
    put(&mut buffer, 5, write_u16(SHARD_PORT).as_slice());
    put(&mut buffer, 7, REDIRECT_KEY.as_slice());
    assert(buffer@ =~= server_redirect_bytes());
    buffer
}

/// Builds the features packet, as it is before compression.
pub fn features_packet() -> (packet: Vec<u8>)
    ensures
        packet@ == features_bytes(),
{
    let mut buffer: Vec<u8> = vec![0u8; 5];
    buffer[0] = FEATURES_PACKET_ID;
    put(&mut buffer, 1, FEATURE_FLAGS.as_slice());
    assert(buffer@ =~= features_bytes());
    buffer
}

/// Builds the character list, as it is before compression.
pub fn character_list_packet() -> (packet: Vec<u8>)
    ensures
        packet@ == character_list_bytes(),
{
    let mut buffer: Vec<u8> = vec![0u8; 9];
    buffer[0] = CHARACTER_LIST_PACKET_ID;
    put(&mut buffer, 1, write_u16(CHARACTER_LIST_PACKET_LENGTH).as_slice());
    assert(buffer@ =~= character_list_bytes());
    buffer
}

} // verus!
