//! The datagrams that clients and storage servers exchange.
//!
//! On the wire a message is the JSON document of the message written in
//! Base64; this module frames and unframes the JSON bytes.
use vstd::prelude::*;

use crate::encoding::{base64_decode, base64_encode, base64_of};

verus! {

/// A message of the storage protocol. Every message names a shard by its
/// hash.
pub enum Message {
    /// A client asks who can keep a shard.
    SendingReq(String),
    /// A server offers to keep a shard.
    SendingAck(String),
    /// A client asks for a shard back.
    RetrievingReq(String),
    /// A shard's content, sent by a client to store it or by a server to
    /// return it.
    ContentFilled(String, Vec<u8>),
}

impl Message {
    /// The hash that the message names.
    pub open spec fn hash_of(self) -> Seq<char> {
        match self {
            Message::SendingReq(h) => h@,
            Message::SendingAck(h) => h@,
            Message::RetrievingReq(h) => h@,
            Message::ContentFilled(h, _) => h@,
        }
    }
}

/// The datagram for the JSON document of a message: the document in Base64.
pub fn into_frame(json: &[u8]) -> (frame: Vec<u8>)
    ensures
        frame@ == base64_of(json@),
{
    base64_encode(json)
}

/// The JSON document that a datagram carries. A datagram that is not Base64
/// text is refused.
pub fn from_frame(frame: &[u8]) -> (r: Result<Vec<u8>, FromBytesCastError>)
    ensures
        r matches Ok(json) ==> base64_of(json@) == frame@,
        forall|json: Seq<u8>|
            #![trigger base64_of(json)]
            base64_of(json) == frame@ ==> r is Ok && r->Ok_0@ == json,
{
    match base64_decode(frame) {
        Ok(json) => Ok(json),
        Err(e) => Err(FromBytesCastError(e)),
    }
}

/// A message could not be written as bytes.
#[derive(Debug)]
pub struct IntoBytesCastError(pub String);

/// Bytes could not be read as a message.
#[derive(Debug)]
pub struct FromBytesCastError(pub String);

} // verus!
