//! The test client: what it logs in with, what it sends, and how it answers.
use crate::im::packet::{Headers, Message, MessageView, Packet, PacketView, Payload, PayloadView};
use vstd::prelude::*;
use vstd::string::StringExecFns;

verus! {

/// `rand::random::<u64>()`: a number from the thread's random generator;
/// nothing is promised of it.
#[verifier::external_body]
fn random_u64() -> u64 {
    rand::random::<u64>()
}

/// The login payload the client sends first.
pub fn login_payload(token: String) -> (p: Payload)
    ensures
        p@ == (PayloadView::Login {
            token: token@,
            version: "1"@,
            user_agent: "rust"@,
            timestamp: 32,
        }),
{
    Payload::Login {
        version: String::from_str("1"),
        timestamp: 32,
        user_agent: String::from_str("rust"),
        token,
    }
}

/// The chat message the client sends from `from` to `to`.
pub fn message_payload(from: u64, to: u64) -> (p: Payload)
    ensures
        p@ == PayloadView::Message(
            MessageView {
                timestamp: 32,
                seq: 1,
                from,
                to,
                msg_type: "text"@,
                content: "hello"@,
            },
        ),
{
    Payload::Message(
        Message {
            timestamp: 32,
            seq: 1,
            from,
            to,
            msg_type: String::from_str("text"),
            content: String::from_str("hello"),
        },
    )
}

/// The recipient that the random number `r` picks among users `1..=max_user_id`.
pub fn pick_recipient(r: u64, max_user_id: u64) -> (to: u64)
    requires
        max_user_id > 0,
    ensures
        to == r % max_user_id + 1,
        1 <= to <= max_user_id,
{
    r % max_user_id + 1
}

/// A random recipient among users `1..=max_user_id`.
pub fn random_recipient(max_user_id: u64) -> (to: u64)
    requires
        max_user_id > 0,
    ensures
        1 <= to <= max_user_id,
{
    pick_recipient(random_u64(), max_user_id)
}

/// The packet that carries an outgoing payload under a fresh request identifier.
pub fn outgoing_packet(request_id: u64, payload: Payload) -> (p: Packet)
    ensures
        p@ == (PacketView { request_id, headers: Seq::empty(), payload: payload@ }),
{
    Packet::new(request_id, Headers::new(), payload)
}

/// What the client does with a packet from the server.
pub enum ClientAction {
    /// Send this packet back.
    Reply(Packet),
    /// The server stored the message sent under this request.
    Delivered(u64),
    /// A packet the client does not expect.
    Unknown(Payload),
}

/// The client's answer to a packet: a message for it is acknowledged under
/// the same request, the server's acknowledgement is noted, anything else is
/// unknown. A message for another user is a fault that the client stops on,
/// which `requires` leaves out.
pub fn client_on_packet(identifier: u64, packet: Packet) -> (a: ClientAction)
    requires
        packet.payload matches Payload::Message(m) ==> m.to == identifier,
    ensures
        match packet.payload@ {
            PayloadView::Message(_) => a matches ClientAction::Reply(p) && p@ == (PacketView {
                request_id: packet.request_id,
                headers: Seq::empty(),
                payload: PayloadView::MessageCliAck,
            }),
            PayloadView::MessageSrvAck => a == ClientAction::Delivered(packet.request_id),
            _ => a matches ClientAction::Unknown(p) && p@ == packet.payload@,
        },
{
    let request_id = packet.request_id;
    match packet.payload {
        Payload::Message(_) => ClientAction::Reply(
            Packet::new(request_id, Headers::new(), Payload::MessageCliAck),
        ),
        Payload::MessageSrvAck => ClientAction::Delivered(request_id),
        other => ClientAction::Unknown(other),
    }
}

} // verus!
