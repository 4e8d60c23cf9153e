//! Wire codec for [`Packet`]: explicit length-prefixed framing over a byte
//! stream, so that reads that split or coalesce logical messages are handled.
//!
//! A frame is a 4-byte little-endian length `n` followed by an `n`-byte body.
//! The body is a tag byte followed by the variant's fields: ids as 8-byte
//! little-endian integers, the one string field (always last) as its UTF-8
//! bytes running to the end of the body.
use vstd::prelude::*;

use vstd::bytes::{
    spec_u32_from_le_bytes, spec_u32_to_le_bytes, spec_u64_from_le_bytes, spec_u64_to_le_bytes,
    lemma_auto_spec_u32_to_from_le_bytes, lemma_auto_spec_u64_to_from_le_bytes, u32_from_le_bytes,
    u32_to_le_bytes, u64_from_le_bytes, u64_to_le_bytes,
};
use vstd::slice::{slice_subrange, slice_to_vec};
use vstd::string::StrSliceExecFns;
use vstd::utf8::{
    decode_utf8, encode_utf8, encode_utf8_decode_utf8, encode_utf8_valid_utf8, valid_utf8,
};

use crate::error::RatError;
use crate::message::{ChatMessage, ChatMessageV, ClientConnectData, Packet, PacketV,
    ServerWelcomeData};

verus! {

/// Body tag of a `Connect` frame.
pub const TAG_CONNECT: u8 = 0;

/// Body tag of a `Welcome` frame.
pub const TAG_WELCOME: u8 = 1;

/// Body tag of a `Message` frame.
pub const TAG_MESSAGE: u8 = 2;

/// Body tag of a `Disconnect` frame.
pub const TAG_DISCONNECT: u8 = 3;

/// The body of a frame, before the length prefix: a tag byte and the
/// variant's fields.
pub open spec fn spec_body(p: PacketV) -> Seq<u8> {
    match p {
        PacketV::Connect(name) => seq![TAG_CONNECT] + encode_utf8(name),
        PacketV::Welcome(id) => seq![TAG_WELCOME] + spec_u64_to_le_bytes(id as u64),
        PacketV::Message(m) => seq![TAG_MESSAGE] + spec_u64_to_le_bytes(m.chat_id as u64)
            + spec_u64_to_le_bytes(m.sender_id as u64) + encode_utf8(m.message),
        PacketV::Disconnect => seq![TAG_DISCONNECT],
    }
}

/// A packet can be framed when its body length fits the 4-byte prefix.
pub open spec fn encodable(p: PacketV) -> bool {
    spec_body(p).len() <= 0xFFFF_FFFF
}

/// Ids in range for the machine; the view of every executable [`Packet`]
/// satisfies this (see [`lemma_packet_view_wf`]).
pub open spec fn wf_packet(p: PacketV) -> bool {
    match p {
        PacketV::Connect(_) => true,
        PacketV::Welcome(id) => 0 <= id <= usize::MAX as int,
        PacketV::Message(m) => 0 <= m.chat_id <= usize::MAX as int
            && 0 <= m.sender_id <= usize::MAX as int,
        PacketV::Disconnect => true,
    }
}

/// The full frame for a packet: length prefix, then body.
pub open spec fn spec_frame(p: PacketV) -> Seq<u8> {
    spec_u32_to_le_bytes(spec_body(p).len() as u32) + spec_body(p)
}

/// What decoding a frame body yields: the packet, or nothing when the body is
/// malformed (unknown tag, wrong field lengths, text that is not UTF-8, or an
/// id that does not fit the machine).
pub open spec fn parse_body(b: Seq<u8>) -> Option<PacketV> {
    if b.len() < 1 {
        None
    } else if b[0] == TAG_CONNECT {
        let name_bytes = b.subrange(1, b.len() as int);
        if valid_utf8(name_bytes) {
            Some(PacketV::Connect(decode_utf8(name_bytes)))
        } else {
            None
        }
    } else if b[0] == TAG_WELCOME {
        if b.len() == 9 && spec_u64_from_le_bytes(b.subrange(1, 9)) <= usize::MAX as u64 {
            Some(PacketV::Welcome(spec_u64_from_le_bytes(b.subrange(1, 9)) as int))
        } else {
            None
        }
    } else if b[0] == TAG_MESSAGE {
        if b.len() >= 17 && spec_u64_from_le_bytes(b.subrange(1, 9)) <= usize::MAX as u64
            && spec_u64_from_le_bytes(b.subrange(9, 17)) <= usize::MAX as u64
            && valid_utf8(b.subrange(17, b.len() as int)) {
            Some(PacketV::Message(ChatMessageV {
                chat_id: spec_u64_from_le_bytes(b.subrange(1, 9)) as int,
                sender_id: spec_u64_from_le_bytes(b.subrange(9, 17)) as int,
                message: decode_utf8(b.subrange(17, b.len() as int)),
            }))
        } else {
            None
        }
    } else if b[0] == TAG_DISCONNECT {
        if b.len() == 1 {
            Some(PacketV::Disconnect)
        } else {
            None
        }
    } else {
        None
    }
}

/// Outcome of decoding the front of a byte buffer.
#[verifier::ext_equal]
pub enum DecodedV {
    /// The buffer does not yet hold a complete frame.
    Incomplete,
    /// The frame at the front of the buffer has a malformed body.
    Malformed,
    /// The packet at the front and how many bytes its frame occupies.
    Packet(PacketV, int),
}

/// The mathematical decoder: what the front of a byte buffer holds.
pub open spec fn spec_decode(b: Seq<u8>) -> DecodedV {
    if b.len() < 4 {
        DecodedV::Incomplete
    } else {
        let n = spec_u32_from_le_bytes(b.subrange(0, 4)) as int;
        if b.len() < 4 + n {
            DecodedV::Incomplete
        } else {
            match parse_body(b.subrange(4, 4 + n)) {
                Some(p) => DecodedV::Packet(p, 4 + n),
                None => DecodedV::Malformed,
            }
        }
    }
}

/// Executable mirror of [`DecodedV`], returned by [`decode_packet`].
#[derive(Debug)]
pub enum Decoded {
    Incomplete,
    Malformed,
    Packet(Packet, usize),
}

impl View for Decoded {
    type V = DecodedV;

    open spec fn view(&self) -> DecodedV {
        match self {
            Decoded::Incomplete => DecodedV::Incomplete,
            Decoded::Malformed => DecodedV::Malformed,
            Decoded::Packet(p, n) => DecodedV::Packet(p@, *n as int),
        }
    }
}

/// Relies on `String::from_utf8` (std): it returns `Ok` exactly when the
/// bytes are valid UTF-8, and the string it returns is their UTF-8 decoding.
#[verifier::external_body]
fn string_from_utf8(v: Vec<u8>) -> (r: Option<String>)
    ensures
        r is Some <==> valid_utf8(v@),
        r matches Some(s) ==> s@ == decode_utf8(v@),
{
    match String::from_utf8(v) {
        Ok(s) => Some(s),
        Err(_) => None,
    }
}

/// The view of every executable packet has its ids in machine range.
pub proof fn lemma_packet_view_wf(p: &Packet)
    ensures
        wf_packet(p@),
{
}

/// Encode one packet's frame body. Fails, with `ParseError`, exactly when the
/// body would not fit the 4-byte length prefix.
fn encode_body(p: &Packet) -> (r: Result<Vec<u8>, RatError>)
    ensures
        encodable(p@) ==> (r matches Ok(b) && b@ == spec_body(p@)),
        !encodable(p@) ==> (r matches Err(e) && e is ParseError),
{
    proof {
        lemma_auto_spec_u64_to_from_le_bytes();
    }
    match p {
        Packet::Connect(d) => {
            let name = d.get_name();
            let mut nb = name.as_str().as_bytes_vec();
            if nb.len() > 0xFFFF_FFFEusize {
                return Err(RatError::ParseError);
            }
            let mut body = vec![TAG_CONNECT];
            body.append(&mut nb);
            assert(body@ =~= spec_body(p@));
            Ok(body)
        },
        Packet::Welcome(w) => {
            let mut body = vec![TAG_WELCOME];
            let mut idb = u64_to_le_bytes(w.client_id as u64);
            body.append(&mut idb);
            assert(body@ =~= spec_body(p@));
            Ok(body)
        },
        Packet::Message(m) => {
            let mut tb = m.message.as_str().as_bytes_vec();
            if tb.len() > 0xFFFF_FFEEusize {
                return Err(RatError::ParseError);
            }
            let mut body = vec![TAG_MESSAGE];
            let mut cb = u64_to_le_bytes(m.chat_id as u64);
            body.append(&mut cb);
            let mut sb = u64_to_le_bytes(m.sender_id as u64);
            body.append(&mut sb);
            body.append(&mut tb);
            assert(body@ =~= spec_body(p@));
            Ok(body)
        },
        Packet::Disconnect => {
            let body = vec![TAG_DISCONNECT];
            assert(body@ =~= spec_body(p@));
            Ok(body)
        },
    }
}

/// Encode one packet as a complete frame, ready to be written to the stream.
/// Fails, with `ParseError`, exactly when the packet is too large to frame.
pub fn encode_packet(p: &Packet) -> (r: Result<Vec<u8>, RatError>)
    ensures
        encodable(p@) ==> (r matches Ok(f) && f@ == spec_frame(p@)),
        !encodable(p@) ==> (r matches Err(e) && e is ParseError),
{
    let mut body = match encode_body(p) {
        Ok(b) => b,
        Err(e) => {
            return Err(e);
        },
    };
    let n = body.len() as u32;
    let mut frame = u32_to_le_bytes(n);
    frame.append(&mut body);
    assert(frame@ =~= spec_frame(p@));
    Ok(frame)
}

/// Decode the frame body `b` (everything after the length prefix).
fn decode_body(b: &[u8]) -> (r: Option<Packet>)
    ensures
        r matches Some(p) ==> parse_body(b@) == Some(p@),
        r is None ==> parse_body(b@) is None,
{
    if b.len() < 1 {
        return None;
    }
    let tag = b[0];
    if tag == TAG_CONNECT {
        let name_bytes = slice_to_vec(slice_subrange(b, 1, b.len()));
        match string_from_utf8(name_bytes) {
            Some(s) => Some(Packet::Connect(ClientConnectData::new(s))),
            None => None,
        }
    } else if tag == TAG_WELCOME {
        if b.len() != 9 {
            return None;
        }
        let id64 = u64_from_le_bytes(slice_subrange(b, 1, 9));
        if id64 > usize::MAX as u64 {
            return None;
        }
        Some(Packet::Welcome(ServerWelcomeData { client_id: id64 as usize }))
    } else if tag == TAG_MESSAGE {
        if b.len() < 17 {
            return None;
        }
        let chat64 = u64_from_le_bytes(slice_subrange(b, 1, 9));
        let sender64 = u64_from_le_bytes(slice_subrange(b, 9, 17));
        if chat64 > usize::MAX as u64 || sender64 > usize::MAX as u64 {
            return None;
        }
        let text_bytes = slice_to_vec(slice_subrange(b, 17, b.len()));
        match string_from_utf8(text_bytes) {
            Some(s) => Some(Packet::Message(ChatMessage {
                chat_id: chat64 as usize,
                sender_id: sender64 as usize,
                message: s,
            })),
            None => None,
        }
    } else if tag == TAG_DISCONNECT {
        if b.len() == 1 {
            Some(Packet::Disconnect)
        } else {
            None
        }
    } else {
        None
    }
}

/// Decode the frame at the front of `buf`, if a complete one is there.
/// The result mirrors [`spec_decode`] exactly: `Incomplete` asks the caller
/// to read more bytes first, `Malformed` marks an unusable frame, and
/// `Packet` carries the decoded packet and the frame's size in bytes.
pub fn decode_packet(buf: &[u8]) -> (r: Decoded)
    ensures
        r@ == spec_decode(buf@),
{
    if buf.len() < 4 {
        return Decoded::Incomplete;
    }
    let n32 = u32_from_le_bytes(slice_subrange(buf, 0, 4));
    let n = n32 as usize;
    if buf.len() - 4 < n {
        return Decoded::Incomplete;
    }
    let body = slice_subrange(buf, 4, 4 + n);
    match decode_body(body) {
        Some(p) => {
            assert(DecodedV::Packet(p@, 4 + n as int) =~~= spec_decode(buf@));
            Decoded::Packet(p, 4 + n)
        },
        None => Decoded::Malformed,
    }
}

/// Law: encoding is lossless. A framed packet placed at the front of any byte
/// stream — whatever bytes follow it — decodes back to the very packet, and
/// consumes exactly its frame. This covers all four variants, empty strings
/// included.
pub proof fn lemma_frame_round_trip(p: PacketV, rest: Seq<u8>)
    requires
        wf_packet(p),
        encodable(p),
    ensures
        spec_decode(spec_frame(p) + rest) == DecodedV::Packet(p, spec_frame(p).len() as int),
{
    lemma_auto_spec_u32_to_from_le_bytes();
    lemma_auto_spec_u64_to_from_le_bytes();
    let body = spec_body(p);
    let full = spec_frame(p) + rest;
    assert(full.subrange(0, 4) =~= spec_u32_to_le_bytes(body.len() as u32));
    let n = spec_u32_from_le_bytes(full.subrange(0, 4)) as int;
    assert(n == body.len());
    assert(full.subrange(4, 4 + n) =~= body);
    lemma_parse_body_inverse(p);
    assert(spec_decode(full) =~~= DecodedV::Packet(p, 4 + n));
}

/// Parsing inverts body encoding, for every packet with ids in machine range.
proof fn lemma_parse_body_inverse(p: PacketV)
    requires
        wf_packet(p),
    ensures
        parse_body(spec_body(p)) == Some(p),
{
    lemma_auto_spec_u64_to_from_le_bytes();
    let body = spec_body(p);
    match p {
        PacketV::Connect(name) => {
            assert(body.subrange(1, body.len() as int) =~= encode_utf8(name));
            encode_utf8_valid_utf8(name);
            encode_utf8_decode_utf8(name);
            assert(parse_body(body) =~~= Some(p));
        },
        PacketV::Welcome(id) => {
            assert(body.subrange(1, 9) =~= spec_u64_to_le_bytes(id as u64));
            assert(spec_u64_from_le_bytes(body.subrange(1, 9)) == id as u64);
            assert(parse_body(body) =~~= Some(p));
        },
        PacketV::Message(m) => {
            let text = encode_utf8(m.message);
            assert(body.subrange(1, 9) =~= spec_u64_to_le_bytes(m.chat_id as u64));
            assert(body.subrange(9, 17) =~= spec_u64_to_le_bytes(m.sender_id as u64));
            assert(body.subrange(17, body.len() as int) =~= text);
            encode_utf8_valid_utf8(m.message);
            encode_utf8_decode_utf8(m.message);
            assert(parse_body(body) =~~= Some(p));
        },
        PacketV::Disconnect => {
            assert(parse_body(body) =~~= Some(p));
        },
    }
}

} // verus!
