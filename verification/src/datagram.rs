//! The datagrams of the compressed protocol: a message type number, the hash
//! of a shard and, for some types, the shard's content.
use vstd::prelude::*;

use crate::bytes::{copy_bytes, same_bytes};

verus! {

/// A client asks who can keep a shard.
pub const SENDING_REQ_MSG_TYPE: u8 = 0;

/// A client asks for a shard back.
pub const RETRIEVING_REQ_MSG_TYPE: u8 = 1;

/// A server offers to keep a shard.
pub const SENDING_ACK_MSG_TYPE: u8 = 2;

/// A server answers a retrieving request.
pub const RETRIEVING_ACK_MSG_TYPE: u8 = 3;

/// A shard's content.
pub const CONTENT_FILLED_MSG_TYPE: u8 = 4;

/// The type of a datagram.
#[derive(PartialEq, Eq, Structural, Clone, Copy, Debug)]
pub enum MessageType {
    SendingReq,
    RetrievingReq,
    SendingAck,
    RetrievingAck,
    ContentFilled,
}

/// The number of a message type.
pub open spec fn type_number(t: MessageType) -> u8 {
    match t {
        MessageType::SendingReq => SENDING_REQ_MSG_TYPE,
        MessageType::RetrievingReq => RETRIEVING_REQ_MSG_TYPE,
        MessageType::SendingAck => SENDING_ACK_MSG_TYPE,
        MessageType::RetrievingAck => RETRIEVING_ACK_MSG_TYPE,
        MessageType::ContentFilled => CONTENT_FILLED_MSG_TYPE,
    }
}

/// The message type of a number from 0 to 4.
pub open spec fn type_of_number(v: u8) -> MessageType {
    if v == SENDING_REQ_MSG_TYPE {
        MessageType::SendingReq
    } else if v == RETRIEVING_REQ_MSG_TYPE {
        MessageType::RetrievingReq
    } else if v == SENDING_ACK_MSG_TYPE {
        MessageType::SendingAck
    } else if v == RETRIEVING_ACK_MSG_TYPE {
        MessageType::RetrievingAck
    } else {
        MessageType::ContentFilled
    }
}

impl MessageType {
    /// The message type of a number; only the numbers 0 to 4 stand for a
    /// type.
    pub fn from(value: u8) -> (t: MessageType)
        requires
            value <= 4,
        ensures
            t == type_of_number(value),
            type_number(t) == value,
    {
        if value == SENDING_REQ_MSG_TYPE {
            MessageType::SendingReq
        } else if value == CONTENT_FILLED_MSG_TYPE {
            MessageType::ContentFilled
        } else if value == SENDING_ACK_MSG_TYPE {
            MessageType::SendingAck
        } else if value == RETRIEVING_REQ_MSG_TYPE {
            MessageType::RetrievingReq
        } else {
            MessageType::RetrievingAck
        }
    }

    /// The number of the message type.
    pub fn into(self) -> (v: u8)
        ensures
            v == type_number(self),
            v <= 4,
    {
        match self {
            MessageType::SendingAck => SENDING_ACK_MSG_TYPE,
            MessageType::ContentFilled => CONTENT_FILLED_MSG_TYPE,
            MessageType::RetrievingAck => RETRIEVING_ACK_MSG_TYPE,
            MessageType::RetrievingReq => RETRIEVING_REQ_MSG_TYPE,
            MessageType::SendingReq => SENDING_REQ_MSG_TYPE,
        }
    }
}

/// A type gives its number and the number gives the type back.
pub proof fn lemma_type_number_roundtrip(t: MessageType, v: u8)
    ensures
        type_of_number(type_number(t)) == t,
        v <= 4 ==> type_number(type_of_number(v)) == v,
{
}

/// A datagram of the compressed protocol.
pub struct Message {
    msg_type: MessageType,
    hash: Vec<u8>,
    data: Option<Vec<u8>>,
}

impl Message {
    /// The type of the message.
    pub closed spec fn msg_type(self) -> MessageType {
        self.msg_type
    }

    /// The hash of the shard.
    pub closed spec fn hash(self) -> Seq<u8> {
        self.hash@
    }

    /// The content, where the message carries one.
    pub closed spec fn data(self) -> Option<Seq<u8>> {
        match self.data {
            Some(d) => Some(d@),
            None => None,
        }
    }

    /// A message of the type of a number (0 to 4), for a hash, with an
    /// optional content.
    pub fn new(msg_type_num: u8, hash: &[u8], data: Option<Vec<u8>>) -> (m: Message)
        requires
            msg_type_num <= 4,
        ensures
            m.msg_type() == type_of_number(msg_type_num),
            m.hash() == hash@,
            m.data() == (match data {
                Some(d) => Some(d@),
                None => None::<Seq<u8>>,
            }),
    {
        let msg_type = MessageType::from(msg_type_num);
        Message { msg_type, hash: copy_bytes(hash), data }
    }

    /// The number of the message's type.
    pub fn get_type(&self) -> (v: u8)
        ensures
            v == type_number(self.msg_type()),
    {
        self.msg_type.into()
    }

    /// The hash of the shard.
    pub fn get_hash(&self) -> (h: Vec<u8>)
        ensures
            h@ == self.hash(),
    {
        copy_bytes(self.hash.as_slice())
    }

    /// The content of a message that carries one.
    pub fn get_data(&self) -> (d: Option<Vec<u8>>)
        requires
            self.data() is Some,
        ensures
            d matches Some(v) && v@ == self.data()->Some_0,
    {
        match &self.data {
            Some(v) => Some(copy_bytes(v.as_slice())),
            None => None,
        }
    }

    /// Whether the message carries a content.
    pub fn has_data(&self) -> (b: bool)
        ensures
            b == self.data() is Some,
    {
        self.data.is_some()
    }

    /// Whether an answer is the offer to keep the shard of a hash: a
    /// `SendingAck` for that hash.
    pub fn is_sending_ack_for(&self, hash: &[u8]) -> (b: bool)
        ensures
            b == (self.msg_type() == MessageType::SendingAck && self.hash() == hash@),
    {
        self.get_type() == SENDING_ACK_MSG_TYPE && same_bytes(self.hash.as_slice(), hash)
    }

    /// The content that an answer brings for the shard of a hash: that of a
    /// `ContentFilled` for the hash; other answers bring none.
    pub fn content_for(&self, hash: &[u8]) -> (r: Option<Vec<u8>>)
        requires
            self.msg_type() == MessageType::ContentFilled && self.hash() == hash@ ==> self.data() is Some,
        ensures
            r is Some == (self.msg_type() == MessageType::ContentFilled && self.hash() == hash@),
            r matches Some(d) ==> Some(d@) == self.data(),
    {
        if self.get_type() == CONTENT_FILLED_MSG_TYPE && same_bytes(self.hash.as_slice(), hash) {
            self.get_data()
        } else {
            None
        }
    }
}

/// A message could not be written as JSON.
#[derive(Debug)]
pub struct MessageSerializationError(pub String);

/// JSON text could not be read as a message.
#[derive(Debug)]
pub struct MessageDeserializationError(pub String);

/// A number that stands for no message type.
#[derive(Debug)]
pub struct InvalidMessageTypeError(pub u8);

} // verus!
