//! The client side of the protocol: composing the handshake and chat frames
//! to write, and classifying the frames the server sends back. The socket
//! itself stays with the caller.
use vstd::prelude::*;

use crate::codec::{
    decode_packet, encodable, encode_packet, lemma_frame_round_trip, spec_decode, spec_frame,
    Decoded, DecodedV,
};
use crate::error::RatError;
use crate::message::{ChatMessage, ClientConnectData, Packet, PacketV};
use crate::Id;

verus! {

/// The `Connect{name}` frame a client opens its connection with. Fails, with
/// `ParseError`, only when the name is too large to frame.
pub fn client_hello(name: String) -> (r: Result<Vec<u8>, RatError>)
    ensures
        encodable(PacketV::Connect(name@)) ==> (r matches Ok(f) && f@ == spec_frame(
            PacketV::Connect(name@),
        ) && spec_decode(f@) == DecodedV::Packet(PacketV::Connect(name@), f@.len() as int)),
        !encodable(PacketV::Connect(name@)) ==> (r matches Err(e) && e is ParseError),
{
    let hello = Packet::Connect(ClientConnectData::new(name));
    let r = encode_packet(&hello);
    proof {
        if encodable(hello@) {
            lemma_frame_round_trip(hello@, Seq::<u8>::empty());
            assert(spec_frame(hello@) + Seq::<u8>::empty() =~= spec_frame(hello@));
        }
    }
    r
}

/// Read the server's handshake reply: a `Welcome` yields the assigned id and
/// how many bytes its frame took; any other variant is a protocol error, an
/// undecodable or still-incomplete reply a parse error.
pub fn parse_welcome(buf: &[u8]) -> (r: Result<(Id, usize), RatError>)
    ensures
        match spec_decode(buf@) {
            DecodedV::Packet(pv, n) => match pv {
                PacketV::Welcome(id) => r matches Ok((got, used)) && got as int == id && used as int
                    == n,
                _ => r matches Err(e) && e is ProtocolError,
            },
            _ => r matches Err(e) && e is ParseError,
        },
{
    match decode_packet(buf) {
        Decoded::Packet(p, n) => match p {
            Packet::Welcome(w) => Ok((w.client_id, n)),
            _ => Err(RatError::ProtocolError),
        },
        _ => Err(RatError::ParseError),
    }
}

/// What the frame at the front of the server stream means to the client.
#[derive(Debug)]
pub enum ServerMsg {
    /// Not a full frame yet: read more bytes first.
    Pending,
    /// A relayed chat message to display, and its frame's size in bytes.
    Chat(ChatMessage, usize),
    /// The server said goodbye; the frame's size in bytes.
    Closed(usize),
}

/// Classify one frame of steady-state server traffic: a relayed `Message` is
/// handed back to display, `Disconnect` ends the conversation, and any other
/// variant — or an undecodable frame — is a protocol error.
pub fn read_msg_from_server(buf: &[u8]) -> (r: Result<ServerMsg, RatError>)
    ensures
        match spec_decode(buf@) {
            DecodedV::Incomplete => r matches Ok(m) && m is Pending,
            DecodedV::Malformed => r matches Err(e) && e is ProtocolError,
            DecodedV::Packet(pv, n) => match pv {
                PacketV::Message(mv) => r matches Ok(m) && (m matches ServerMsg::Chat(cm, used)
                    && cm@ == mv && used as int == n),
                PacketV::Disconnect => r matches Ok(m) && (m matches ServerMsg::Closed(used)
                    && used as int == n),
                _ => r matches Err(e) && e is ProtocolError,
            },
        },
{
    match decode_packet(buf) {
        Decoded::Incomplete => Ok(ServerMsg::Pending),
        Decoded::Malformed => Err(RatError::ProtocolError),
        Decoded::Packet(p, n) => match p {
            Packet::Message(m) => Ok(ServerMsg::Chat(m, n)),
            Packet::Disconnect => Ok(ServerMsg::Closed(n)),
            _ => Err(RatError::ProtocolError),
        },
    }
}

/// The `Message` frame for one line of user input. Fails, with `ParseError`,
/// only when the text is too large to frame.
pub fn compose_chat(chat_id: Id, sender_id: Id, text: String) -> (r: Result<Vec<u8>, RatError>)
    ensures
        ({
            let mv = ChatMessage { chat_id, sender_id, message: text }@;
            &&& encodable(PacketV::Message(mv)) ==> (r matches Ok(f) && f@ == spec_frame(
                PacketV::Message(mv),
            ) && spec_decode(f@) == DecodedV::Packet(PacketV::Message(mv), f@.len() as int))
            &&& !encodable(PacketV::Message(mv)) ==> (r matches Err(e) && e is ParseError)
        }),
{
    let p = Packet::Message(ChatMessage { chat_id, sender_id, message: text });
    let r = encode_packet(&p);
    proof {
        if encodable(p@) {
            lemma_frame_round_trip(p@, Seq::<u8>::empty());
            assert(spec_frame(p@) + Seq::<u8>::empty() =~= spec_frame(p@));
        }
    }
    r
}

} // verus!
