//! What a storage server does with a datagram it receives.
//!
//! The server process reads datagrams, performs the action that
//! [`process_message`] chooses (send an answer, write a shard file, read a
//! shard file and answer with it); once a shard file is written it records
//! it with [`UdpServerStorage::commit_save`], and once one is read back it
//! gives its space up with [`UdpServerStorage::release`].
use vstd::prelude::*;

use crate::credentials::join_path;
use crate::message::Message;
use crate::storage::{already_kept_message, SavingDataError, UdpServerStorage, MAX_OCCUPIED_SPACE, SHARD_FILE_EXTENSION};

verus! {

/// What the server is to do for a datagram.
pub enum ServerAction {
    /// Send this message back to the sender.
    Reply(Message),
    /// Write the shard of `hash` into the file `file` (then record it).
    Store { hash: String, file: String, data: Vec<u8> },
    /// Read the shard of `hash` from the file `file`, answer the sender with
    /// it, and remove the file.
    Return { hash: String, file: String },
    /// Do nothing but report the error.
    Fail(ServerError),
}

/// Why a datagram was not served.
pub enum ServerError {
    /// The server keeps as much as it may.
    NoFreeSpace(NoFreeSpaceError),
    /// The server keeps no shard of the hash.
    NoHash(NoHashError),
    /// The datagram is not a request.
    InvalidMessage(InvalidMessageError),
    /// The shard is kept already.
    Saving(SavingDataError),
}

/// Chooses the action for a message:
/// - `SendingReq(h)`: offer to keep the shard (`SendingAck(h)`) when there is
///   room, else fail with [`NoFreeSpaceError`];
/// - `RetrievingReq(h)`: when a shard of `h` is kept, give it up and return
///   it from its file, else fail with [`NoHashError`];
/// - `ContentFilled(h, d)`: store `d` in a new file named by a random
///   UUID, unless a shard of `h` is kept already;
/// - `SendingAck(_)`: fail with [`InvalidMessageError`].
pub fn process_message(storage: &mut UdpServerStorage, message: Message) -> (a: ServerAction)
    ensures
        final(storage).dir() == old(storage).dir(),
        final(storage).size() == old(storage).size(),
        match message {
            Message::SendingReq(h) => {
                &&& final(storage).files() == old(storage).files()
                &&& if old(storage).size() < MAX_OCCUPIED_SPACE {
                    a matches ServerAction::Reply(Message::SendingAck(r)) && r@ == h@
                } else {
                    a matches ServerAction::Fail(ServerError::NoFreeSpace(_))
                }
            },
            Message::RetrievingReq(h) => {
                &&& final(storage).files() == old(storage).files().remove(h@)
                &&& if old(storage).files().contains_key(h@) {
                    a matches ServerAction::Return { hash, file } && hash@ == h@ && file@ == old(
                        storage,
                    ).files()[h@]
                } else {
                    a matches ServerAction::Fail(ServerError::NoHash(e)) && e.0@ == h@
                }
            },
            Message::ContentFilled(h, d) => {
                &&& final(storage).files() == old(storage).files()
                &&& if old(storage).files().contains_key(h@) {
                    a matches ServerAction::Fail(ServerError::Saving(e)) && e.0@
                        == already_kept_message(h@)
                } else {
                    a matches ServerAction::Store { hash, file, data } && hash@ == h@ && data@
                        == d@ && exists|id: Seq<char>|
                        id.len() == 36 && file@ == #[trigger] join_path(
                            old(storage).dir(),
                            id + SHARD_FILE_EXTENSION@,
                        )
                }
            },
            Message::SendingAck(_) => {
                &&& final(storage).files() == old(storage).files()
                &&& a matches ServerAction::Fail(ServerError::InvalidMessage(_))
            },
        },
{
    match message {
        Message::SendingReq(h) => {
            if storage.can_save() {
                ServerAction::Reply(Message::SendingAck(h))
            } else {
                ServerAction::Fail(ServerError::NoFreeSpace(NoFreeSpaceError))
            }
        },
        Message::RetrievingReq(h) => {
            match storage.take(h.as_str()) {
                Ok(file) => ServerAction::Return { hash: h, file },
                Err(_) => ServerAction::Fail(ServerError::NoHash(NoHashError(h))),
            }
        },
        Message::ContentFilled(h, d) => {
            match storage.prepare_save(h.as_str()) {
                Ok(file) => ServerAction::Store { hash: h, file, data: d },
                Err(e) => ServerAction::Fail(ServerError::Saving(e)),
            }
        },
        Message::SendingAck(_) => ServerAction::Fail(
            ServerError::InvalidMessage(InvalidMessageError),
        ),
    }
}

/// No room is left for another shard.
#[derive(Debug)]
pub struct NoFreeSpaceError;

/// No shard of the hash is kept.
#[derive(Debug)]
pub struct NoHashError(pub String);

/// A datagram that is not a request.
#[derive(Debug)]
pub struct InvalidMessageError;

/// An offer to keep a shard could not be sent.
#[derive(Debug)]
pub struct SendingAckError(pub String);

/// A kept shard could not be sent back.
#[derive(Debug)]
pub struct SendingContentFilled(pub String);

/// The server could not start.
#[derive(Debug)]
pub struct ServerInitError(pub String);

} // verus!
