use uo_login::tcp::inbound::Packet;
use uo_login::tcp::reader::DecodeError;
use uo_login::tcp::{parse_packets, respond};

fn credentials(username: &[u8], password: &[u8]) -> Vec<u8> {
    let mut bytes = username.to_vec();
    bytes.resize(30, 0);
    bytes.extend(password);
    bytes.resize(60, 0);
    bytes
}

fn padded(text: &str) -> String {
    let mut padded = String::from(text);
    while padded.len() < 30 {
        padded.push('\0');
    }
    padded
}

fn account_login(username: &[u8], password: &[u8]) -> Vec<u8> {
    let mut bytes = vec![0x80];
    bytes.extend(credentials(username, password));
    bytes.push(0x00);
    bytes
}

fn post_login(key: [u8; 4], username: &[u8], password: &[u8]) -> Vec<u8> {
    let mut bytes = vec![0x91];
    bytes.extend(key);
    bytes.extend(credentials(username, password));
    bytes
}

#[test]
fn account_login_is_answered_with_the_server_list() {
    let buffer = account_login(b"alice", b"secret");
    assert_eq!(buffer.len(), 62);
    let outcome = parse_packets(&buffer);
    assert_eq!(outcome.error, None);
    assert_eq!(outcome.responses.len(), 1);
    let server_list = &outcome.responses[0];
    assert_eq!(server_list.len(), 46);
    assert_eq!(server_list[0], 0xA8);
    assert_eq!(&server_list[1..3], &[0x00, 0x2E]);
    assert_eq!(&server_list[4..6], &[0x00, 0x01]);
    assert_eq!(&server_list[8..16], b"My Shard");
    assert_eq!(&server_list[42..46], &[127, 0, 0, 1]);
    assert_eq!(
        outcome.packets,
        vec![Packet::AccountLoginRequest {
            username: padded("alice"),
            password: padded("secret"),
        }]
    );
}

#[test]
fn packet_cut_short_is_incomplete() {
    let whole = account_login(b"alice", b"secret");
    for length in 1..whole.len() {
        let outcome = parse_packets(&whole[..length]);
        assert_eq!(outcome.error, Some(DecodeError::IncompleteBuffer));
        assert!(outcome.responses.is_empty());
        assert!(outcome.packets.is_empty());
    }
    for cut in [vec![0xEF], vec![0xEF; 20], vec![0xA0], vec![0xA0, 0x00], vec![0x91; 64]] {
        assert_eq!(parse_packets(&cut).error, Some(DecodeError::IncompleteBuffer));
    }
}

#[test]
fn whole_packets_before_a_cut_packet_keep_their_responses() {
    let mut buffer = account_login(b"alice", b"secret");
    buffer.extend([0xA0, 0x00, 0x00]);
    buffer.extend([0xEF, 0x00, 0x00]);
    let outcome = parse_packets(&buffer);
    assert_eq!(outcome.error, Some(DecodeError::IncompleteBuffer));
    assert_eq!(outcome.packets.len(), 2);
    assert_eq!(outcome.responses.len(), 2);
    assert_eq!(outcome.responses[0].len(), 46);
    assert_eq!(
        outcome.responses[1],
        vec![0x8C, 0x7F, 0x00, 0x00, 0x01, 0x0A, 0x21, 0x43, 0x2F, 0x3F, 0xF0]
    );
}

#[test]
fn empty_buffer_comes_to_nothing() {
    let outcome = parse_packets(&[]);
    assert_eq!(outcome.error, None);
    assert!(outcome.packets.is_empty());
    assert!(outcome.responses.is_empty());
}

#[test]
fn login_seed_gets_no_answer() {
    let mut buffer = vec![0xEF];
    buffer.extend([0x00, 0x00, 0x00, 0x01]);
    buffer.extend([0x00, 0x00, 0x00, 0x07]);
    buffer.extend([0x00, 0x00, 0x00, 0x00]);
    buffer.extend([0x00, 0x00, 0x00, 0x0F]);
    buffer.extend([0x00, 0x00, 0x00, 0x02]);
    let outcome = parse_packets(&buffer);
    assert_eq!(outcome.error, None);
    assert!(outcome.responses.is_empty());
    assert_eq!(
        outcome.packets,
        vec![Packet::EncryptedLoginSeed { seed: 1, major: 7, minor: 0, revision: 15, patch: 2 }]
    );
}

#[test]
fn server_select_is_answered_with_the_redirect() {
    let outcome = parse_packets(&[0xA0, 0x00, 0x00]);
    assert_eq!(outcome.error, None);
    assert_eq!(outcome.packets, vec![Packet::ServerSelect { server_index: 0 }]);
    assert_eq!(
        outcome.responses,
        vec![vec![0x8C, 0x7F, 0x00, 0x00, 0x01, 0x0A, 0x21, 0x43, 0x2F, 0x3F, 0xF0]]
    );
}

#[test]
fn post_login_is_answered_with_two_compressed_packets() {
    let buffer = post_login([0x43, 0x2F, 0x3F, 0xF0], b"alice", b"secret");
    assert_eq!(buffer.len(), 65);
    let outcome = parse_packets(&buffer);
    assert_eq!(outcome.error, None);
    assert_eq!(
        outcome.responses,
        vec![vec![0xB3, 0x0C, 0x59, 0xE4, 0xCB, 0xA0], vec![0x81, 0x46, 0x20, 0x00, 0xD0]]
    );
    assert_eq!(
        outcome.packets,
        vec![Packet::PostLogin {
            encryption_key: 0x432F_3FF0,
            username: padded("alice"),
            password: padded("secret"),
        }]
    );
}

#[test]
fn unknown_opcodes_are_skipped_one_byte_at_a_time() {
    let outcome = parse_packets(&[0x00, 0x73, 0x42, 0xA0, 0x00, 0x01, 0xFF]);
    assert_eq!(outcome.error, None);
    assert_eq!(
        outcome.packets,
        vec![
            Packet::Unknown { opcode: 0x00 },
            Packet::Ping,
            Packet::Unknown { opcode: 0x42 },
            Packet::ServerSelect { server_index: 1 },
            Packet::Unknown { opcode: 0xFF },
        ]
    );
    assert_eq!(outcome.responses.len(), 1);
}

#[test]
fn a_buffer_of_unknown_opcodes_is_used_up() {
    let buffer = [0u8; 1024];
    let outcome = parse_packets(&buffer);
    assert_eq!(outcome.error, None);
    assert_eq!(outcome.packets.len(), 1024);
    assert!(outcome.responses.is_empty());
}

#[test]
fn a_whole_handshake_in_one_buffer() {
    let mut buffer = vec![0xEF];
    buffer.extend([0u8; 20]);
    buffer.extend(account_login(b"alice", b"secret"));
    buffer.extend([0xA0, 0x00, 0x00]);
    buffer.extend(post_login([0, 0, 0, 1], b"alice", b"secret"));
    let outcome = parse_packets(&buffer);
    assert_eq!(outcome.error, None);
    assert_eq!(outcome.packets.len(), 4);
    assert_eq!(outcome.responses.len(), 4);
    assert_eq!(outcome.responses[0][0], 0xA8);
    assert_eq!(outcome.responses[1][0], 0x8C);
    assert_eq!(outcome.responses[2], vec![0xB3, 0x0C, 0x59, 0xE4, 0xCB, 0xA0]);
    assert_eq!(outcome.responses[3], vec![0x81, 0x46, 0x20, 0x00, 0xD0]);
}

#[test]
fn text_that_is_no_utf8_ends_the_decoding() {
    let mut buffer = vec![0xA0, 0x00, 0x00];
    buffer.extend(account_login(&[0xC0, 0x80], b"secret"));
    buffer.extend([0xA0, 0x00, 0x00]);
    let outcome = parse_packets(&buffer);
    assert_eq!(outcome.error, Some(DecodeError::InvalidUtf8));
    assert_eq!(outcome.packets, vec![Packet::ServerSelect { server_index: 0 }]);
    assert_eq!(outcome.responses.len(), 1);
}

#[test]
fn respond_answers_by_kind() {
    assert!(respond(&Packet::Ping).is_empty());
    assert!(respond(&Packet::Unknown { opcode: 0x12 }).is_empty());
    assert!(respond(&Packet::EncryptedLoginSeed {
        seed: 0,
        major: 0,
        minor: 0,
        revision: 0,
        patch: 0
    })
    .is_empty());
    assert_eq!(respond(&Packet::ServerSelect { server_index: 9 }).len(), 1);
    let login =
        Packet::AccountLoginRequest { username: String::from("x"), password: String::from("y") };
    assert_eq!(respond(&login).len(), 1);
    let post = Packet::PostLogin {
        encryption_key: 1,
        username: String::from("x"),
        password: String::from("y"),
    };
    assert_eq!(respond(&post).len(), 2);
}
