//! Messages of the UDP rendezvous exchange that introduces peers to each other.
use vstd::prelude::*;

verus! {

/// A UDP rendezvous message.
#[derive(Debug)]
pub enum UdpRendezvousMessage {
    /// A node registering with the rendezvous server.
    Node { node_id: String, shared_secret: String },
    /// A client asking for the address of a node.
    Client { node_id: String, token: String },
    /// The server's confirmation, with the address it saw.
    Registered { addr: String },
    /// The address of the peer to punch towards.
    Peer { addr: String },
    /// A hole-punching packet.
    Punch,
}

/// The diagnostic name of each rendezvous message.
pub open spec fn message_kind_spec(m: UdpRendezvousMessage) -> Seq<char> {
    match m {
        UdpRendezvousMessage::Node { .. } => "rendezvous_node"@,
        UdpRendezvousMessage::Client { .. } => "rendezvous_client"@,
        UdpRendezvousMessage::Registered { .. } => "rendezvous_registered"@,
        UdpRendezvousMessage::Peer { .. } => "rendezvous_peer"@,
        UdpRendezvousMessage::Punch => "rendezvous_punch"@,
    }
}

/// The diagnostic name of a rendezvous message.
pub fn rendezvous_message_kind(message: &UdpRendezvousMessage) -> (s: &'static str)
    ensures
        s@ == message_kind_spec(*message),
{
    match message {
        UdpRendezvousMessage::Node { .. } => "rendezvous_node",
        UdpRendezvousMessage::Client { .. } => "rendezvous_client",
        UdpRendezvousMessage::Registered { .. } => "rendezvous_registered",
        UdpRendezvousMessage::Peer { .. } => "rendezvous_peer",
        UdpRendezvousMessage::Punch => "rendezvous_punch",
    }
}

/// The address a listener punches towards for a received message: only `Peer` carries one.
pub fn punch_target(message: &UdpRendezvousMessage) -> (r: Option<&String>)
    ensures
        match *message {
            UdpRendezvousMessage::Peer { addr } => r == Some(&addr),
            _ => r is None,
        },
{
    match message {
        UdpRendezvousMessage::Peer { addr } => Some(addr),
        _ => None,
    }
}

/// Is this a hole-punching packet?
pub fn is_punch(message: &UdpRendezvousMessage) -> (r: bool)
    ensures
        r == (*message is Punch),
{
    match message {
        UdpRendezvousMessage::Punch => true,
        _ => false,
    }
}

} // verus!
