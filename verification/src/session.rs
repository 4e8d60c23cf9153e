//! The per-connection session state machine: `Connecting` (the handshake),
//! `Active` (multiplexing decoded socket frames against bus deliveries) and
//! the terminal `Closed`, whose resource release happens exactly once.
//!
//! These functions are the decisions of the session; the surrounding program
//! owns the socket and the tasks, performs each returned action, and feeds
//! the next event back in. Failure is fail-fast: any protocol or transport
//! error terminates only this session.
use vstd::prelude::*;

use crate::codec::{
    decode_packet, encode_packet, encodable, lemma_frame_round_trip, spec_decode, spec_frame,
    Decoded, DecodedV,
};
use crate::error::RatError;
use crate::message::{ChatMessage, ChatMessageV, Packet, PacketV, ServerWelcomeData};
use crate::registry::{register_post, ClientManager};
use crate::relay::{same_sub, FanoutBus};
use crate::Id;

verus! {

/// The state a session is in. No transition leaves `Closed`.
#[derive(Debug, Clone, Copy, PartialEq, Eq)]
pub enum SessionState {
    Connecting,
    Active,
    Closed,
}

/// What the session asks its driver to do after a buffered frame was
/// examined.
#[derive(Debug)]
pub enum SessionStep {
    /// No complete frame is buffered: read more bytes from the socket.
    Wait,
    /// A chat message arrived: hand it, stamped with this session's id, to
    /// the ingestion queue.
    Enqueue(ChatMessage),
    /// The session reached `Closed`: stop the loops and release resources.
    Closed,
}

/// The message a session ingests for the text a client sent: the payload
/// unchanged, the sender stamped with the session's own id.
pub open spec fn stamped(m: ChatMessageV, sid: int) -> ChatMessageV {
    ChatMessageV { chat_id: m.chat_id, sender_id: sid, message: m.message }
}

/// The pure state of one connection's session: its identity, its bus
/// subscription, where it stands in the lifecycle, and the socket bytes read
/// but not yet consumed.
#[derive(Debug)]
pub struct Session {
    id: Id,
    name: String,
    sub: usize,
    state: SessionState,
    released: bool,
    rx: Vec<u8>,
}

impl Session {
    /// The id the registry assigned at the handshake.
    pub closed spec fn id(&self) -> int {
        self.id as int
    }

    /// The display name from the `Connect` packet.
    pub closed spec fn name(&self) -> Seq<char> {
        self.name@
    }

    /// This session's bus subscription slot.
    pub closed spec fn sub(&self) -> int {
        self.sub as int
    }

    /// Which lifecycle state the session is in.
    pub closed spec fn state(&self) -> SessionState {
        self.state
    }

    /// Whether the terminal resource release has already run.
    pub closed spec fn is_released(&self) -> bool {
        self.released
    }

    /// Socket bytes buffered and not yet consumed as frames.
    pub closed spec fn rx(&self) -> Seq<u8> {
        self.rx@
    }

    /// Resources are only ever released in the terminal state.
    pub open spec fn wf(&self) -> bool {
        self.is_released() ==> self.state() is Closed
    }

    /// The assigned id, for the driver.
    pub fn get_id(&self) -> (r: Id)
        ensures
            r as int == self.id(),
    {
        self.id
    }

    /// The registered name, for the driver.
    pub fn get_name(&self) -> (r: String)
        ensures
            r@ == self.name(),
    {
        self.name.clone()
    }

    /// The subscription slot, for the driver.
    pub fn get_sub(&self) -> (r: usize)
        ensures
            r as int == self.sub(),
    {
        self.sub
    }

    /// Whether the terminal resource release has already run, for the
    /// driver: [`Session::finish`] must run exactly once, and only when this
    /// is still false.
    pub fn released(&self) -> (r: bool)
        ensures
            r == self.is_released(),
    {
        self.released
    }

    /// Whether the session has reached its terminal state.
    pub fn is_closed(&self) -> (r: bool)
        ensures
            r == (self.state() is Closed),
    {
        matches!(self.state, SessionState::Closed)
    }

    /// Buffer bytes read from the socket, to be consumed frame by frame.
    pub fn feed(&mut self, data: &[u8])
        requires
            old(self).state() is Active,
        ensures
            final(self).rx() == old(self).rx() + data@,
            unchanged_identity(*old(self), *final(self)),
            final(self).state() == old(self).state(),
    {
        let mut i: usize = 0;
        while i < data.len()
            invariant
                i <= data.len(),
                self.rx@ == old(self).rx@ + data@.subrange(0, i as int),
                self.id == old(self).id,
                self.name == old(self).name,
                self.sub == old(self).sub,
                self.state == old(self).state,
                self.released == old(self).released,
            decreases data.len() - i,
        {
            self.rx.push(data[i]);
            proof {
                assert(self.rx@ =~= old(self).rx@ + data@.subrange(0, i + 1));
            }
            i = i + 1;
        }
        proof {
            assert(self.rx@ =~= old(self).rx@ + data@);
        }
    }

    /// Consume the frame at the front of the receive buffer, if a complete
    /// one is there, and decide what it means in the `Active` state: a
    /// `Message` is stamped with this session's id and handed out for
    /// ingestion; `Disconnect` reaches `Closed`; any other variant is a
    /// protocol error and a malformed frame a decode error, both of which
    /// also reach `Closed` rather than being ignored.
    pub fn next_step(&mut self) -> (r: SessionStep)
        requires
            old(self).state() is Active,
        ensures
            unchanged_identity(*old(self), *final(self)),
            final(self).is_released() == old(self).is_released(),
            match spec_decode(old(self).rx()) {
                DecodedV::Incomplete => r is Wait && final(self).state() is Active
                    && final(self).rx() == old(self).rx(),
                DecodedV::Malformed => r is Closed && final(self).state() is Closed
                    && final(self).rx() == old(self).rx(),
                DecodedV::Packet(pv, n) => {
                    &&& final(self).rx() == old(self).rx().subrange(n, old(self).rx().len() as int)
                    &&& match pv {
                        PacketV::Message(mv) => r matches SessionStep::Enqueue(cm) && cm@
                            == stamped(mv, old(self).id()) && final(self).state() is Active,
                        _ => r is Closed && final(self).state() is Closed,
                    }
                },
            },
    {
        match decode_packet(self.rx.as_slice()) {
            Decoded::Incomplete => SessionStep::Wait,
            Decoded::Malformed => {
                self.state = SessionState::Closed;
                SessionStep::Closed
            },
            Decoded::Packet(p, n) => {
                let rest = vstd::slice::slice_to_vec(
                    vstd::slice::slice_subrange(self.rx.as_slice(), n, self.rx.len()),
                );
                self.rx = rest;
                match p {
                    Packet::Message(m) => {
                        let cm = ChatMessage {
                            chat_id: m.chat_id,
                            sender_id: self.id,
                            message: m.message,
                        };
                        proof {
                            assert(cm@ =~= stamped(m@, self.id as int));
                        }
                        SessionStep::Enqueue(cm)
                    },
                    Packet::Disconnect => {
                        self.state = SessionState::Closed;
                        SessionStep::Closed
                    },
                    _ => {
                        self.state = SessionState::Closed;
                        SessionStep::Closed
                    },
                }
            },
        }
    }

    /// A zero-length socket read: the peer closed the stream, and the session
    /// reaches `Closed`.
    pub fn on_socket_closed(&mut self)
        requires
            old(self).state() is Active,
        ensures
            unchanged_identity(*old(self), *final(self)),
            final(self).is_released() == old(self).is_released(),
            final(self).state() is Closed,
    {
        self.state = SessionState::Closed;
    }

    /// A failed socket write: unrecoverable, so the session reaches `Closed`.
    pub fn on_write_failed(&mut self)
        requires
            old(self).state() is Active,
        ensures
            unchanged_identity(*old(self), *final(self)),
            final(self).is_released() == old(self).is_released(),
            final(self).state() is Closed,
    {
        self.state = SessionState::Closed;
    }

    /// Frame a message delivered on the bus subscription for this session's
    /// socket. The message is forwarded unchanged — receivers see the
    /// original sender's id, never a re-stamped one — and by the explicit
    /// self-echo policy of this relay a session also receives and forwards
    /// its own messages; the bus delivers to every live subscription alike.
    pub fn on_bus_message(&self, m: &ChatMessage) -> (r: Result<Vec<u8>, RatError>)
        ensures
            encodable(PacketV::Message(m@)) ==> (r matches Ok(f) && f@ == spec_frame(
                PacketV::Message(m@),
            ) && spec_decode(f@) == DecodedV::Packet(PacketV::Message(m@), f@.len() as int)),
            !encodable(PacketV::Message(m@)) ==> (r matches Err(e) && e is ParseError),
    {
        let p = Packet::Message(m.clone());
        let r = encode_packet(&p);
        proof {
            if encodable(p@) {
                lemma_frame_round_trip(p@, Seq::<u8>::empty());
                assert(spec_frame(p@) + Seq::<u8>::empty() =~= spec_frame(p@));
            }
        }
        r
    }

    /// The terminal transition's resource release, run exactly once: the
    /// session's registry entry goes away, its bus subscription is cancelled,
    /// and both together. Everyone else's records and subscriptions are
    /// untouched, and publishing to the bus afterwards still succeeds.
    pub fn finish(&mut self, reg: &mut ClientManager, bus: &mut FanoutBus)
        requires
            old(self).state() is Closed,
            !old(self).is_released(),
            old(reg).wf(),
            old(bus).wf(),
            old(self).sub() < old(bus).sub_count(),
        ensures
            final(self).is_released(),
            final(self).state() is Closed,
            final(self).wf(),
            unchanged_identity(*old(self), *final(self)),
            final(reg).wf(),
            final(bus).wf(),
            !crate::registry::has_id(final(reg)@, old(self).id()),
            forall|x: int, n: Seq<char>| x != old(self).id() ==> (crate::registry::has_record(
                final(reg)@,
                x,
                n,
            ) <==> crate::registry::has_record(old(reg)@, x, n)),
            !final(bus).is_subscribed(old(self).sub()),
            final(bus).log() == old(bus).log(),
            final(bus).sub_count() == old(bus).sub_count(),
            forall|t: int| t != old(self).sub() ==> same_sub(*old(bus), *final(bus), t),
    {
        reg.deregister(self.id);
        bus.unsubscribe(self.sub);
        self.released = true;
    }
}

/// The fields fixed at the handshake — id, name and subscription slot — and
/// they never change afterwards.
pub open spec fn unchanged_identity(pre: Session, post: Session) -> bool {
    &&& post.id() == pre.id()
    &&& post.name() == pre.name()
    &&& post.sub() == pre.sub()
}

/// What handling the first bytes of a connection yields.
#[derive(Debug)]
pub enum HandshakeStep {
    /// No complete frame yet: read more bytes and try again.
    NeedMoreData,
    /// The handshake succeeded: the live session, and the encoded `Welcome`
    /// frame to write back to the client.
    Accepted(Session, Vec<u8>),
    /// The handshake failed: close the connection; nothing was registered or
    /// subscribed.
    Rejected(RatError),
}

/// The `Connecting` state: decide the first frame of a connection. A
/// `Connect{name}` registers the client under the smallest free id,
/// subscribes it to the bus — at the current end of the log, so it observes
/// only what is relayed afterwards — and produces the `Welcome` reply
/// carrying exactly the assigned id. Any other variant is a protocol error
/// and an undecodable frame a parse error; both leave registry and bus
/// exactly as they were, with nothing to clean up. Bytes that follow the
/// `Connect` frame in `buf` stay buffered in the session.
pub fn start_session(reg: &mut ClientManager, bus: &mut FanoutBus, buf: &[u8]) -> (r: HandshakeStep)
    requires
        old(reg).wf(),
        old(bus).wf(),
    ensures
        final(reg).wf(),
        final(bus).wf(),
        match spec_decode(buf@) {
            DecodedV::Incomplete => r is NeedMoreData && final(reg)@ == old(reg)@ && *final(bus)
                == *old(bus),
            DecodedV::Malformed => (r matches HandshakeStep::Rejected(e) && e is ParseError)
                && final(reg)@ == old(reg)@ && *final(bus) == *old(bus),
            DecodedV::Packet(pv, n) => match pv {
                PacketV::Connect(name) => r matches HandshakeStep::Accepted(sess, reply) && {
                    &&& register_post(old(reg)@, final(reg)@, sess.id(), name)
                    &&& sess.name() == name
                    &&& sess.state() is Active
                    &&& !sess.is_released()
                    &&& sess.wf()
                    &&& sess.rx() == buf@.subrange(n, buf@.len() as int)
                    &&& sess.sub() == old(bus).sub_count()
                    &&& final(bus).sub_count() == old(bus).sub_count() + 1
                    &&& final(bus).log() == old(bus).log()
                    &&& final(bus).is_subscribed(sess.sub())
                    &&& final(bus).sub_start(sess.sub()) == old(bus).log().len()
                    &&& final(bus).sub_next(sess.sub()) == old(bus).log().len()
                    &&& forall|t: int| t != sess.sub() ==> same_sub(*old(bus), *final(bus), t)
                    &&& spec_decode(reply@) == DecodedV::Packet(
                        PacketV::Welcome(sess.id()),
                        reply@.len() as int,
                    )
                },
                _ => (r matches HandshakeStep::Rejected(e) && e is ProtocolError) && final(reg)@
                    == old(reg)@ && *final(bus) == *old(bus),
            },
        },
{
    match decode_packet(buf) {
        Decoded::Incomplete => HandshakeStep::NeedMoreData,
        Decoded::Malformed => HandshakeStep::Rejected(RatError::ParseError),
        Decoded::Packet(p, n) => match p {
            Packet::Connect(data) => {
                let name = data.get_name();
                let id = reg.register(data.get_name());
                let sub = bus.subscribe();
                let welcome = Packet::Welcome(ServerWelcomeData { client_id: id });
                proof {
                    lemma_welcome_encodable(welcome@);
                }
                let reply = match encode_packet(&welcome) {
                    Ok(f) => f,
                    Err(_) => {
                        proof {
                            assert(false);
                        }
                        Vec::new()
                    },
                };
                proof {
                    lemma_frame_round_trip(welcome@, Seq::<u8>::empty());
                    assert(spec_frame(welcome@) + Seq::<u8>::empty() =~= spec_frame(welcome@));
                }
                let rx = vstd::slice::slice_to_vec(vstd::slice::slice_subrange(buf, n, buf.len()));
                let sess = Session {
                    id,
                    name,
                    sub,
                    state: SessionState::Active,
                    released: false,
                    rx,
                };
                HandshakeStep::Accepted(sess, reply)
            },
            _ => HandshakeStep::Rejected(RatError::ProtocolError),
        },
    }
}

/// A `Welcome` body is one tag byte and one 8-byte id: always small enough to
/// frame.
proof fn lemma_welcome_encodable(p: PacketV)
    requires
        p is Welcome,
    ensures
        encodable(p),
{
    vstd::bytes::lemma_auto_spec_u64_to_from_le_bytes();
}

} // verus!
