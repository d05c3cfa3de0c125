//! The login handshake on the wire: inbound packets are cut off a buffer and
//! decoded one after the other, and each is answered with its outbound
//! packets.

pub mod inbound;
pub mod packets;
pub mod reader;

use vstd::prelude::*;
use crate::huffman::{compress, compressed};
use crate::tcp::inbound::{
    body_is_text, body_length, decode_packet, packet, packet_error, Packet, PacketView,
    ACCOUNT_LOGIN_REQUEST_LENGTH, ACCOUNT_LOGIN_REQUEST_PACKET_ID,
};
use crate::tcp::packets::{
    be_u16_bytes, character_list_bytes, character_list_packet, features_bytes, features_packet,
    server_list_bytes, server_list_packet, server_redirect_bytes, server_redirect_packet,
    SERVER_LIST_PACKET_ID, SERVER_LIST_PACKET_LENGTH, SHARD_NAME,
};
use crate::tcp::reader::DecodeError;

verus! {

/// What a buffer of inbound bytes comes to: the packets decoded from it, the
/// outbound packets that answer them, and the error that ended the decoding
/// before the end of the buffer, if one did.
#[verifier::ext_equal]
pub struct Dispatched {
    pub packets: Seq<PacketView>,
    pub responses: Seq<Seq<u8>>,
    pub error: Option<DecodeError>,
}

/// What `parse_packets` hands back; see `Dispatched`.
pub struct ParseOutcome {
    pub packets: Vec<Packet>,
    pub responses: Vec<Vec<u8>>,
    pub error: Option<DecodeError>,
}

/// The views of a sequence of packets.
pub open spec fn packet_views(packets: Seq<Packet>) -> Seq<PacketView> {
    Seq::new(packets.len(), |i: int| packets[i]@)
}

/// The contents of a sequence of byte vectors.
pub open spec fn byte_views(vectors: Seq<Vec<u8>>) -> Seq<Seq<u8>> {
    Seq::new(vectors.len(), |i: int| vectors[i]@)
}

impl View for ParseOutcome {
    type V = Dispatched;

    open spec fn view(&self) -> Dispatched {
        Dispatched {
            packets: packet_views(self.packets@),
            responses: byte_views(self.responses@),
            error: self.error,
        }
    }
}

/// The outbound packets that answer an inbound packet, in the order in which
/// they are sent: the server list for an account login request, the server
/// redirect for a server select, the compressed features packet and the
/// compressed character list for a post login, and nothing for the rest.
pub open spec fn responses_to(inbound: PacketView) -> Seq<Seq<u8>> {
    match inbound {
        PacketView::AccountLoginRequest { .. } => seq![server_list_bytes()],
        PacketView::ServerSelect { .. } => seq![server_redirect_bytes()],
        PacketView::PostLogin { .. } => seq![
            compressed(features_bytes()),
            compressed(character_list_bytes()),
        ],
        _ => Seq::empty(),
    }
}

/// `rest` after the packets and responses of the bytes before it.
pub open spec fn followed_by(
    packets: Seq<PacketView>,
    responses: Seq<Seq<u8>>,
    rest: Dispatched,
) -> Dispatched {
    Dispatched {
        packets: packets + rest.packets,
        responses: responses + rest.responses,
        error: rest.error,
    }
}

/// What `buffer` comes to. Packets are decoded from its front until it is
/// used up or a packet cannot be decoded; that packet's error ends the
/// decoding, and the packets before it keep their responses.
pub open spec fn dispatch(buffer: Seq<u8>) -> Dispatched
    decreases buffer.len(),
{
    if buffer.len() == 0 {
        Dispatched { packets: Seq::empty(), responses: Seq::empty(), error: None }
    } else {
        let opcode = buffer[0];
        let rest = buffer.skip(1);
        match packet_error(opcode, rest) {
            Some(error) => Dispatched {
                packets: Seq::empty(),
                responses: Seq::empty(),
                error: Some(error),
            },
            None => {
                let inbound = packet(opcode, rest.take(body_length(opcode) as int));
                followed_by(
                    seq![inbound],
                    responses_to(inbound),
                    dispatch(rest.skip(body_length(opcode) as int)),
                )
            },
        }
    }
}

/// Builds the outbound packets that answer `inbound`.
pub fn respond(inbound: &Packet) -> (responses: Vec<Vec<u8>>)
    ensures
        byte_views(responses@) == responses_to(inbound@),
{
    let mut responses: Vec<Vec<u8>> = Vec::new();
    match inbound {
        Packet::AccountLoginRequest { .. } => {
            responses.push(server_list_packet());
        },
        Packet::ServerSelect { .. } => {
            responses.push(server_redirect_packet());
        },
        Packet::PostLogin { .. } => {
            let mut features: Vec<u8> = Vec::new();
            compress(features_packet(), &mut features);
            let mut character_list: Vec<u8> = Vec::new();
            compress(character_list_packet(), &mut character_list);
            assert(features@ =~= compressed(features_bytes()));
            assert(character_list@ =~= compressed(character_list_bytes()));
            responses.push(features);
            responses.push(character_list);
        },
        _ => {},
    }
    assert(byte_views(responses@) =~= responses_to(inbound@));
    responses
}

/// Decodes the packets of `buffer` one after the other and builds the
/// responses to them.
pub fn parse_packets(buffer: &[u8]) -> (outcome: ParseOutcome)
    ensures
        outcome@ == dispatch(buffer@),
{
    let mut buffer_slice = buffer;
    let mut packets: Vec<Packet> = Vec::new();
    let mut responses: Vec<Vec<u8>> = Vec::new();
    let mut error: Option<DecodeError> = None;
    assert(followed_by(packet_views(packets@), byte_views(responses@), dispatch(buffer@))
        =~= dispatch(buffer@));
    assert(dispatch(buffer@) == followed_by(
        packet_views(packets@),
        byte_views(responses@),
        dispatch(buffer@),
    ));
    loop
        invariant_except_break
            error is None,
            dispatch(buffer@) == followed_by(
                packet_views(packets@),
                byte_views(responses@),
                dispatch(buffer_slice@),
            ),
        ensures
            dispatch(buffer@) == (Dispatched {
                packets: packet_views(packets@),
                responses: byte_views(responses@),
                error,
            }),
        decreases buffer_slice@.len(),
    {
        let ghost before = buffer_slice@;
        let ghost decoded = packet_views(packets@);
        let ghost answered = byte_views(responses@);
        if buffer_slice.len() == 0 {
            proof {
                lemma_followed_by_end(decoded, answered, dispatch(before));
            }
            break ;
        }
        match decode_packet(&mut buffer_slice) {
            Ok(inbound) => {
                let mut answers = respond(&inbound);
                let ghost sent = byte_views(answers@);
                responses.append(&mut answers);
                packets.push(inbound);
                proof {
                    assert(packet_views(packets@) =~= decoded + seq![inbound@]);
                    assert(byte_views(responses@) =~= answered + sent);
                    lemma_followed_by_step(
                        decoded,
                        answered,
                        inbound@,
                        sent,
                        dispatch(buffer_slice@),
                    );
                }
            },
            Err(failure) => {
                error = Some(failure);
                proof {
                    lemma_followed_by_end(decoded, answered, dispatch(before));
                }
                break ;
            },
        }
    }
    ParseOutcome { packets, responses, error }
}

/// Where nothing more is decoded, what came before is all there is.
proof fn lemma_followed_by_end(
    packets: Seq<PacketView>,
    responses: Seq<Seq<u8>>,
    rest: Dispatched,
)
    requires
        rest.packets.len() == 0,
        rest.responses.len() == 0,
    ensures
        followed_by(packets, responses, rest) == (Dispatched {
            packets,
            responses,
            error: rest.error,
        }),
{
    assert(packets + rest.packets =~= packets);
    assert(responses + rest.responses =~= responses);
}

/// A packet and its responses may be counted with what came before it or
/// with what comes after it.
proof fn lemma_followed_by_step(
    packets: Seq<PacketView>,
    responses: Seq<Seq<u8>>,
    inbound: PacketView,
    sent: Seq<Seq<u8>>,
    rest: Dispatched,
)
    ensures
        followed_by(packets + seq![inbound], responses + sent, rest) == followed_by(
            packets,
            responses,
            followed_by(seq![inbound], sent, rest),
        ),
{
    assert((packets + seq![inbound]) + rest.packets =~= packets + (seq![inbound] + rest.packets));
    assert((responses + sent) + rest.responses =~= responses + (sent + rest.responses));
}

/// Packets are decoded independently of what follows them: where `first`
/// decodes without error, the bytes `first + second` come to the packets and
/// responses of `first` followed by what `second` comes to.
pub proof fn lemma_dispatch_concat(first: Seq<u8>, second: Seq<u8>)
    requires
        dispatch(first).error is None,
    ensures
        dispatch(first + second) == followed_by(
            dispatch(first).packets,
            dispatch(first).responses,
            dispatch(second),
        ),
    decreases first.len(),
{
    if first.len() == 0 {
        assert(first + second =~= second);
        assert(followed_by(dispatch(first).packets, dispatch(first).responses, dispatch(second))
            =~= dispatch(second));
    } else {
        let opcode = first[0];
        let length = body_length(opcode) as int;
        let rest = first.skip(1);
        let whole = first + second;
        assert(packet_error(opcode, rest) is None);
        assert(whole.skip(1).take(length) =~= rest.take(length));
        assert(whole.skip(1).skip(length) =~= rest.skip(length) + second);
        lemma_dispatch_concat(rest.skip(length), second);
        assert(dispatch(whole) =~= followed_by(
            dispatch(first).packets,
            dispatch(first).responses,
            dispatch(second),
        ));
    }
}

/// A buffer that ends in the middle of a packet comes to the error
/// `IncompleteBuffer`, after the packets and responses of the whole packets
/// before it.
pub proof fn lemma_dispatch_incomplete(whole: Seq<u8>, opcode: u8, partial: Seq<u8>)
    requires
        dispatch(whole).error is None,
        partial.len() < body_length(opcode),
    ensures
        dispatch(whole + (seq![opcode] + partial)) == (Dispatched {
            packets: dispatch(whole).packets,
            responses: dispatch(whole).responses,
            error: Some(DecodeError::IncompleteBuffer),
        }),
{
    let last = seq![opcode] + partial;
    assert(last.skip(1) =~= partial);
    lemma_dispatch_concat(whole, last);
    assert(followed_by(dispatch(whole).packets, dispatch(whole).responses, dispatch(last))
        =~= (Dispatched {
        packets: dispatch(whole).packets,
        responses: dispatch(whole).responses,
        error: Some(DecodeError::IncompleteBuffer),
    }));
}

/// An account login request whose text fields hold UTF-8 is answered with
/// exactly one packet, the server list: 46 bytes that begin with its opcode
/// and hold the number of servers, one, from offset 4 and the name of the
/// shard from offset 8.
pub proof fn lemma_dispatch_account_login(body: Seq<u8>)
    requires
        body.len() == ACCOUNT_LOGIN_REQUEST_LENGTH,
        body_is_text(ACCOUNT_LOGIN_REQUEST_PACKET_ID, body),
    ensures
        dispatch(seq![ACCOUNT_LOGIN_REQUEST_PACKET_ID] + body).error is None,
        dispatch(seq![ACCOUNT_LOGIN_REQUEST_PACKET_ID] + body).responses == seq![
            server_list_bytes(),
        ],
        server_list_bytes().len() == SERVER_LIST_PACKET_LENGTH,
        server_list_bytes()[0] == SERVER_LIST_PACKET_ID,
        server_list_bytes().subrange(4, 6) == be_u16_bytes(1),
        server_list_bytes().subrange(8, 16) == SHARD_NAME@,
{
    let buffer = seq![ACCOUNT_LOGIN_REQUEST_PACKET_ID] + body;
    let rest = buffer.skip(1);
    assert(rest =~= body);
    assert(rest.take(ACCOUNT_LOGIN_REQUEST_LENGTH as int) =~= body);
    assert(rest.skip(ACCOUNT_LOGIN_REQUEST_LENGTH as int) =~= Seq::<u8>::empty());
    assert(packet_error(ACCOUNT_LOGIN_REQUEST_PACKET_ID, rest) is None);
    assert(dispatch(rest.skip(ACCOUNT_LOGIN_REQUEST_LENGTH as int)).responses.len() == 0);
    assert(dispatch(buffer).responses =~= seq![server_list_bytes()]);
    assert(server_list_bytes().subrange(4, 6) =~= be_u16_bytes(1));
    assert(server_list_bytes().subrange(8, 16) =~= SHARD_NAME@);
}

} // verus!
