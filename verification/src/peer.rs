//! What a storage peer of the compressed protocol does with a datagram: it
//! offers to keep shards, returns the shards it keeps and keeps the shards
//! it is sent.
use vstd::prelude::*;

use crate::datagram::{
    Message, MessageType, RETRIEVING_ACK_MSG_TYPE, SENDING_ACK_MSG_TYPE,
};
use crate::kvstore::{debug_text, BroadcastServerStorage};

verus! {

/// What the peer is to do for a datagram.
pub enum PeerAction {
    /// Send this message back to the sender.
    Reply(Message),
    /// The shard was kept; nothing is sent.
    Stored,
    /// Report the error and go on.
    Fail(MessageHandlingError),
}

/// Handles a datagram:
/// - `SendingReq`: answer with a `SendingAck` for the hash, carrying the
///   request's content;
/// - `RetrievingReq`: answer with a `RetrievingAck` carrying the shard kept
///   under the hash, or fail where none is kept;
/// - `ContentFilled`: keep the content under the hash;
/// - any other type: fail.
pub fn handle_message(storage: &mut BroadcastServerStorage, message: &Message) -> (a: PeerAction)
    requires
        message.msg_type() == MessageType::SendingReq ==> message.data() is Some,
        message.msg_type() == MessageType::ContentFilled ==> message.data() is Some,
    ensures
        match message.msg_type() {
            MessageType::SendingReq => {
                &&& final(storage).contents() == old(storage).contents()
                &&& a matches PeerAction::Reply(m) && m.msg_type() == MessageType::SendingAck
                    && m.hash() == message.hash() && m.data() == message.data()
            },
            MessageType::RetrievingReq => {
                &&& final(storage).contents() == old(storage).contents()
                &&& if old(storage).contents().contains_key(message.hash()) {
                    a matches PeerAction::Reply(m) && m.msg_type() == MessageType::RetrievingAck
                        && m.hash() == message.hash() && m.data() == Some(
                        old(storage).contents()[message.hash()],
                    )
                } else {
                    a matches PeerAction::Fail(e) && e.0 == MessageType::RetrievingReq && e.1@
                        == debug_text(message.hash())
                }
            },
            MessageType::ContentFilled => {
                &&& final(storage).contents() == old(storage).contents().insert(
                    message.hash(),
                    message.data()->Some_0,
                )
                &&& a is Stored
            },
            _ => {
                &&& final(storage).contents() == old(storage).contents()
                &&& a matches PeerAction::Fail(e) && e.0 == message.msg_type()
            },
        },
{
    let t = message.get_type();
    let ghost mt = message.msg_type();
    let hash = message.get_hash();
    if t == 0 {
        assert(mt == MessageType::SendingReq);
        let reply = Message::new(SENDING_ACK_MSG_TYPE, hash.as_slice(), message.get_data());
        PeerAction::Reply(reply)
    } else if t == 1 {
        assert(mt == MessageType::RetrievingReq);
        match storage.get(hash.as_slice()) {
            Ok(content) => {
                let reply = Message::new(RETRIEVING_ACK_MSG_TYPE, hash.as_slice(), Some(content));
                PeerAction::Reply(reply)
            },
            Err(e) => PeerAction::Fail(MessageHandlingError(MessageType::RetrievingReq, e.0)),
        }
    } else if t == 4 {
        assert(mt == MessageType::ContentFilled);
        let data = match message.get_data() {
            Some(d) => d,
            None => Vec::new(),
        };
        storage.add(hash.as_slice(), data.as_slice());
        PeerAction::Stored
    } else {
        PeerAction::Fail(MessageHandlingError(MessageType::from(t), String::new()))
    }
}

/// A datagram could not be handled: its type and the reason.
#[derive(Debug)]
pub struct MessageHandlingError(pub MessageType, pub String);

/// The peer could not start.
#[derive(Debug)]
pub struct ServerPeerInitializationError(pub String);

} // verus!
