//! The inbound packets of the handshake. A packet is an opcode byte and a
//! body whose length the opcode fixes; the body is cut off the buffer first
//! and its fields are read from it.

use vstd::prelude::*;
use vstd::utf8::{decode_utf8, encode_utf8, valid_utf8};
use crate::tcp::reader::{
    be_u16, be_u32, read_string, read_u16, read_u32, read_u8, DecodeError,
};

verus! {

/// Opcode of the encrypted login seed.
pub const ENCRYPTED_LOGIN_SEED_PACKET_ID: u8 = 0xEF;

/// Opcode of the account login request.
pub const ACCOUNT_LOGIN_REQUEST_PACKET_ID: u8 = 0x80;

/// Opcode of the server select.
pub const SERVER_SELECT_PACKET_ID: u8 = 0xA0;

/// Opcode of the post login.
pub const POST_LOGIN_PACKET_ID: u8 = 0x91;

/// Opcode of the ping, which is ignored.
pub const PING_PACKET_ID: u8 = 0x73;

/// Length in bytes of the body of an encrypted login seed.
pub const ENCRYPTED_LOGIN_SEED_LENGTH: usize = 20;

/// Length in bytes of the body of an account login request.
pub const ACCOUNT_LOGIN_REQUEST_LENGTH: usize = 61;

/// Length in bytes of the body of a server select.
pub const SERVER_SELECT_LENGTH: usize = 2;

/// Length in bytes of the body of a post login.
pub const POST_LOGIN_LENGTH: usize = 64;

/// Width in bytes of the text fields that hold a user name or a password.
pub const CREDENTIAL_LENGTH: u8 = 30;

/// A decoded inbound packet.
#[derive(Debug, Clone, PartialEq, Eq)]
pub enum Packet {
    /// The seed and the version of the client, sent first.
    EncryptedLoginSeed { seed: u32, major: u32, minor: u32, revision: u32, patch: u32 },
    /// The credentials of an account.
    AccountLoginRequest { username: String, password: String },
    /// The server that the client picked from the server list.
    ServerSelect { server_index: u16 },
    /// The key of the redirect and the credentials again, sent to the shard.
    PostLogin { encryption_key: u32, username: String, password: String },
    /// A ping; it has no body and gets no answer.
    Ping,
    /// An opcode that the handshake does not know; it is skipped.
    Unknown { opcode: u8 },
}

/// A decoded inbound packet, its text as sequences of characters.
pub enum PacketView {
    EncryptedLoginSeed { seed: u32, major: u32, minor: u32, revision: u32, patch: u32 },
    AccountLoginRequest { username: Seq<char>, password: Seq<char> },
    ServerSelect { server_index: u16 },
    PostLogin { encryption_key: u32, username: Seq<char>, password: Seq<char> },
    Ping,
    Unknown { opcode: u8 },
}

impl View for Packet {
    type V = PacketView;

    open spec fn view(&self) -> PacketView {
        match *self {
            Packet::EncryptedLoginSeed { seed, major, minor, revision, patch } => {
                PacketView::EncryptedLoginSeed { seed, major, minor, revision, patch }
            },
            Packet::AccountLoginRequest { username, password } => {
                PacketView::AccountLoginRequest { username: username@, password: password@ }
            },
            Packet::ServerSelect { server_index } => PacketView::ServerSelect { server_index },
            Packet::PostLogin { encryption_key, username, password } => PacketView::PostLogin {
                encryption_key,
                username: username@,
                password: password@,
            },
            Packet::Ping => PacketView::Ping,
            Packet::Unknown { opcode } => PacketView::Unknown { opcode },
        }
    }
}

/// The length of the body that follows an opcode. An opcode that the
/// handshake does not decode has no body.
pub open spec fn body_length(opcode: u8) -> nat {
    if opcode == ENCRYPTED_LOGIN_SEED_PACKET_ID {
        ENCRYPTED_LOGIN_SEED_LENGTH as nat
    } else if opcode == ACCOUNT_LOGIN_REQUEST_PACKET_ID {
        ACCOUNT_LOGIN_REQUEST_LENGTH as nat
    } else if opcode == SERVER_SELECT_PACKET_ID {
        SERVER_SELECT_LENGTH as nat
    } else if opcode == POST_LOGIN_PACKET_ID {
        POST_LOGIN_LENGTH as nat
    } else {
        0
    }
}

/// The encrypted login seed that a body of 20 bytes holds: five big-endian
/// integers of four bytes.
pub open spec fn encrypted_login_seed(body: Seq<u8>) -> PacketView {
    PacketView::EncryptedLoginSeed {
        seed: be_u32(body.subrange(0, 4)),
        major: be_u32(body.subrange(4, 8)),
        minor: be_u32(body.subrange(8, 12)),
        revision: be_u32(body.subrange(12, 16)),
        patch: be_u32(body.subrange(16, 20)),
    }
}

/// The account login request that a body of 61 bytes holds: two text fields
/// of 30 bytes, each read whole with the NUL bytes that pad it, and one byte
/// that is not read.
pub open spec fn account_login_request(body: Seq<u8>) -> PacketView {
    PacketView::AccountLoginRequest {
        username: decode_utf8(body.subrange(0, 30)),
        password: decode_utf8(body.subrange(30, 60)),
    }
}

/// The server select that a body of 2 bytes holds: one big-endian integer.
pub open spec fn server_select(body: Seq<u8>) -> PacketView {
    PacketView::ServerSelect { server_index: be_u16(body.subrange(0, 2)) }
}

/// The post login that a body of 64 bytes holds: a big-endian integer of four
/// bytes and two text fields of 30 bytes, each read whole with the NUL bytes
/// that pad it.
pub open spec fn post_login(body: Seq<u8>) -> PacketView {
    PacketView::PostLogin {
        encryption_key: be_u32(body.subrange(0, 4)),
        username: decode_utf8(body.subrange(4, 34)),
        password: decode_utf8(body.subrange(34, 64)),
    }
}

/// Whether the text fields of a body all hold UTF-8.
pub open spec fn body_is_text(opcode: u8, body: Seq<u8>) -> bool {
    if opcode == ACCOUNT_LOGIN_REQUEST_PACKET_ID {
        valid_utf8(body.subrange(0, 30)) && valid_utf8(body.subrange(30, 60))
    } else if opcode == POST_LOGIN_PACKET_ID {
        valid_utf8(body.subrange(4, 34)) && valid_utf8(body.subrange(34, 64))
    } else {
        true
    }
}

/// Why the packet with this opcode cannot be decoded from the bytes `rest`
/// that follow the opcode, if it cannot: the body is cut short, or a text
/// field of it does not hold UTF-8.
pub open spec fn packet_error(opcode: u8, rest: Seq<u8>) -> Option<DecodeError> {
    if rest.len() < body_length(opcode) {
        Some(DecodeError::IncompleteBuffer)
    } else if !body_is_text(opcode, rest.take(body_length(opcode) as int)) {
        Some(DecodeError::InvalidUtf8)
    } else {
        None
    }
}

/// The packet that an opcode and its body hold.
pub open spec fn packet(opcode: u8, body: Seq<u8>) -> PacketView {
    if opcode == ENCRYPTED_LOGIN_SEED_PACKET_ID {
        encrypted_login_seed(body)
    } else if opcode == ACCOUNT_LOGIN_REQUEST_PACKET_ID {
        account_login_request(body)
    } else if opcode == SERVER_SELECT_PACKET_ID {
        server_select(body)
    } else if opcode == POST_LOGIN_PACKET_ID {
        post_login(body)
    } else if opcode == PING_PACKET_ID {
        PacketView::Ping
    } else {
        PacketView::Unknown { opcode }
    }
}

/// Whether the text of a packet is, byte for byte, what the text fields of
/// `body` hold.
pub open spec fn text_is_of(decoded: PacketView, body: Seq<u8>) -> bool {
    match decoded {
        PacketView::AccountLoginRequest { username, password } => {
            &&& encode_utf8(username) == body.subrange(0, 30)
            &&& encode_utf8(password) == body.subrange(30, 60)
        },
        PacketView::PostLogin { username, password, .. } => {
            &&& encode_utf8(username) == body.subrange(4, 34)
            &&& encode_utf8(password) == body.subrange(34, 64)
        },
        _ => true,
    }
}

/// What a handler owes: the packet and the buffer moved past the body, or the
/// error. A body that is cut short leaves the buffer where it was; a body
/// with a text field that does not hold UTF-8 is passed over.
pub open spec fn handled(
    opcode: u8,
    before: Seq<u8>,
    after: Seq<u8>,
    r: Result<Packet, DecodeError>,
) -> bool {
    match r {
        Ok(decoded) => {
            &&& packet_error(opcode, before) is None
            &&& decoded@ == packet(opcode, before.take(body_length(opcode) as int))
            &&& text_is_of(decoded@, before.take(body_length(opcode) as int))
            &&& after == before.skip(body_length(opcode) as int)
        },
        Err(error) => {
            &&& packet_error(opcode, before) == Some(error)
            &&& after == if error == DecodeError::IncompleteBuffer {
                before
            } else {
                before.skip(body_length(opcode) as int)
            }
        },
    }
}

/// Decodes the body of an encrypted login seed.
pub fn handle_encrypted_login_seed_packet(buffer_slice: &mut &[u8]) -> (r: Result<
    Packet,
    DecodeError,
>)
    ensures
        handled(ENCRYPTED_LOGIN_SEED_PACKET_ID, old(buffer_slice)@, final(buffer_slice)@, r),
{
    let packet_length = ENCRYPTED_LOGIN_SEED_LENGTH;
    if buffer_slice.len() < packet_length {
        return Err(DecodeError::IncompleteBuffer);
    }
    let (mut bytes, rest) = buffer_slice.split_at(packet_length);
    *buffer_slice = rest;
    let ghost body = bytes@;
    let seed = read_u32(&mut bytes)?;
    let major = read_u32(&mut bytes)?;
    let minor = read_u32(&mut bytes)?;
    let revision = read_u32(&mut bytes)?;
    let patch = read_u32(&mut bytes)?;
    proof {
        assert(body.take(4) =~= body.subrange(0, 4));
        assert(body.skip(4).take(4) =~= body.subrange(4, 8));
        assert(body.skip(4).skip(4).take(4) =~= body.subrange(8, 12));
        assert(body.skip(4).skip(4).skip(4).take(4) =~= body.subrange(12, 16));
        assert(body.skip(4).skip(4).skip(4).skip(4).take(4) =~= body.subrange(16, 20));
    }
    Ok(Packet::EncryptedLoginSeed { seed, major, minor, revision, patch })
}

/// Decodes the body of an account login request.
pub fn handle_account_login_request_packet(buffer_slice: &mut &[u8]) -> (r: Result<
    Packet,
    DecodeError,
>)
    ensures
        handled(ACCOUNT_LOGIN_REQUEST_PACKET_ID, old(buffer_slice)@, final(buffer_slice)@, r),
{
    let packet_length = ACCOUNT_LOGIN_REQUEST_LENGTH;
    if buffer_slice.len() < packet_length {
        return Err(DecodeError::IncompleteBuffer);
    }
    let (mut bytes, rest) = buffer_slice.split_at(packet_length);
    *buffer_slice = rest;
    let ghost body = bytes@;
    proof {
        assert(body.take(30) =~= body.subrange(0, 30));
        assert(body.skip(30).take(30) =~= body.subrange(30, 60));
    }
    let username = read_string(&mut bytes, CREDENTIAL_LENGTH);
    let password = read_string(&mut bytes, CREDENTIAL_LENGTH);
    match (username, password) {
        (Ok(username), Ok(password)) => Ok(Packet::AccountLoginRequest { username, password }),
        _ => Err(DecodeError::InvalidUtf8),
    }
}

/// Decodes the body of a server select.
pub fn handle_server_select_packet(buffer_slice: &mut &[u8]) -> (r: Result<Packet, DecodeError>)
    ensures
        handled(SERVER_SELECT_PACKET_ID, old(buffer_slice)@, final(buffer_slice)@, r),
{
    let packet_length = SERVER_SELECT_LENGTH;
    if buffer_slice.len() < packet_length {
        return Err(DecodeError::IncompleteBuffer);
    }
    let (mut bytes, rest) = buffer_slice.split_at(packet_length);
    *buffer_slice = rest;
    let ghost body = bytes@;
    let server_index = read_u16(&mut bytes)?;
    proof {
        assert(body.take(2) =~= body.subrange(0, 2));
    }
    Ok(Packet::ServerSelect { server_index })
}

/// Decodes the body of a post login.
pub fn handle_post_login_packet(buffer_slice: &mut &[u8]) -> (r: Result<Packet, DecodeError>)
    ensures
        handled(POST_LOGIN_PACKET_ID, old(buffer_slice)@, final(buffer_slice)@, r),
{
    let packet_length = POST_LOGIN_LENGTH;
    if buffer_slice.len() < packet_length {
        return Err(DecodeError::IncompleteBuffer);
    }
    let (mut bytes, rest) = buffer_slice.split_at(packet_length);
    *buffer_slice = rest;
    let ghost body = bytes@;
    proof {
        assert(body.take(4) =~= body.subrange(0, 4));
        assert(body.skip(4).take(30) =~= body.subrange(4, 34));
        assert(body.skip(4).skip(30).take(30) =~= body.subrange(34, 64));
    }
    let encryption_key = read_u32(&mut bytes)?;
    let username = read_string(&mut bytes, CREDENTIAL_LENGTH);
    let password = read_string(&mut bytes, CREDENTIAL_LENGTH);
    match (username, password) {
        (Ok(username), Ok(password)) => Ok(
            Packet::PostLogin { encryption_key, username, password },
        ),
        _ => Err(DecodeError::InvalidUtf8),
    }
}

/// Decodes the packet at the front of `input`: reads the opcode, then the
/// body that the opcode calls for. Where the input is empty there is no
/// packet, and the error is `IncompleteBuffer`. The opcode is passed over in
/// every other case, also where the body cannot be decoded.
pub fn decode_packet(input: &mut &[u8]) -> (r: Result<Packet, DecodeError>)
    ensures
        old(input)@.len() == 0 ==> r == Err::<Packet, DecodeError>(DecodeError::IncompleteBuffer)
            && final(input)@ == old(input)@,
        old(input)@.len() > 0 ==> handled(
            old(input)@[0],
            old(input)@.skip(1),
            final(input)@,
            r,
        ),
{
    let packet_id = match read_u8(input) {
        Ok(packet_id) => packet_id,
        Err(error) => {
            return Err(error);
        },
    };
    if packet_id == ENCRYPTED_LOGIN_SEED_PACKET_ID {
        handle_encrypted_login_seed_packet(input)
    } else if packet_id == ACCOUNT_LOGIN_REQUEST_PACKET_ID {
        handle_account_login_request_packet(input)
    } else if packet_id == SERVER_SELECT_PACKET_ID {
        handle_server_select_packet(input)
    } else if packet_id == POST_LOGIN_PACKET_ID {
        handle_post_login_packet(input)
    } else if packet_id == PING_PACKET_ID {
        proof {
            assert(input@.skip(0) =~= input@);
        }
        Ok(Packet::Ping)
    } else {
        proof {
            assert(input@.skip(0) =~= input@);
        }
        Ok(Packet::Unknown { opcode: packet_id })
    }
}

} // verus!
