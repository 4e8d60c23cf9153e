//! The packets exchanged over a connection and the client metadata they
//! carry, together with their mathematical views.
use vstd::prelude::*;

use crate::Id;

verus! {

/// Payload of a `Connect` packet: the display name the client registers
/// under.
#[derive(Debug, PartialEq, Eq)]
pub struct ClientConnectData {
    name: String,
}

impl View for ClientConnectData {
    type V = Seq<char>;

    closed spec fn view(&self) -> Seq<char> {
        self.name@
    }
}

impl ClientConnectData {
    pub fn new(name: String) -> (r: Self)
        ensures
            r@ == name@,
    {
        Self { name }
    }

    pub fn get_name(&self) -> (r: String)
        ensures
            r@ == self@,
    {
        self.name.clone()
    }
}

/// Payload of a `Welcome` packet: the id the server assigned to the client.
#[derive(Debug, PartialEq, Eq)]
pub struct ServerWelcomeData {
    pub client_id: Id,
}

/// One chat message. It is created by the sending session, flows through the
/// ingestion queue and the fan-out bus unchanged, and carries no routing
/// metadata beyond the sender's identity.
#[derive(Debug, PartialEq, Eq)]
pub struct ChatMessage {
    pub chat_id: Id,
    pub sender_id: Id,
    pub message: String,
}

/// Mathematical value of a [`ChatMessage`].
#[verifier::ext_equal]
pub struct ChatMessageV {
    pub chat_id: int,
    pub sender_id: int,
    pub message: Seq<char>,
}

impl View for ChatMessage {
    type V = ChatMessageV;

    open spec fn view(&self) -> ChatMessageV {
        ChatMessageV {
            chat_id: self.chat_id as int,
            sender_id: self.sender_id as int,
            message: self.message@,
        }
    }
}

/// The top-level tagged message exchanged over the transport. Exactly one
/// `Connect`/`Welcome` exchange precedes any `Message` traffic on a
/// connection; `Disconnect` signals intent to close in either direction.
#[derive(Debug, PartialEq, Eq)]
pub enum Packet {
    Connect(ClientConnectData),
    Welcome(ServerWelcomeData),
    Message(ChatMessage),
    Disconnect,
}

/// Mathematical value of a [`Packet`].
#[verifier::ext_equal]
pub enum PacketV {
    Connect(Seq<char>),
    Welcome(int),
    Message(ChatMessageV),
    Disconnect,
}

impl View for Packet {
    type V = PacketV;

    open spec fn view(&self) -> PacketV {
        match self {
            Packet::Connect(d) => PacketV::Connect(d@),
            Packet::Welcome(w) => PacketV::Welcome(w.client_id as int),
            Packet::Message(m) => PacketV::Message(m@),
            Packet::Disconnect => PacketV::Disconnect,
        }
    }
}

/// A registered client as the registry records it: the assigned id and the
/// display name from the handshake. Created at a successful handshake and
/// never mutated afterwards.
#[derive(Debug, PartialEq, Eq)]
pub struct Client {
    pub id: Id,
    pub name: String,
}

impl Clone for ClientConnectData {
    fn clone(&self) -> (r: Self)
        ensures
            r == *self,
    {
        ClientConnectData { name: self.name.clone() }
    }
}

impl Clone for ServerWelcomeData {
    fn clone(&self) -> (r: Self)
        ensures
            r == *self,
    {
        ServerWelcomeData { client_id: self.client_id }
    }
}

impl Clone for ChatMessage {
    fn clone(&self) -> (r: Self)
        ensures
            r == *self,
    {
        ChatMessage {
            chat_id: self.chat_id,
            sender_id: self.sender_id,
            message: self.message.clone(),
        }
    }
}

impl Clone for Packet {
    fn clone(&self) -> (r: Self)
        ensures
            r == *self,
    {
        match self {
            Packet::Connect(d) => Packet::Connect(d.clone()),
            Packet::Welcome(w) => Packet::Welcome(w.clone()),
            Packet::Message(m) => Packet::Message(m.clone()),
            Packet::Disconnect => Packet::Disconnect,
        }
    }
}

impl Clone for Client {
    fn clone(&self) -> (r: Self)
        ensures
            r == *self,
    {
        Client { id: self.id, name: self.name.clone() }
    }
}

} // verus!
