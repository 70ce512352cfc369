//! The datagrams of the broadcast peers that name the requesting host: a
//! request carries the address of its sender, an answer only its bytes.
use vstd::prelude::*;
use vstd::string::StringExecFns;

use crate::bytes::{copy_bytes, same_bytes};

verus! {

/// The number of a sending request.
pub const SENDING_REQ_MSG_TYPE: u8 = 0;

/// The number of a retrieving request.
pub const RETRIEVING_REQ_MSG_TYPE: u8 = 1;

/// The number of a sending acknowledgement.
pub const SENDING_ACK_MSG_TYPE: u8 = 2;

/// The number of a retrieving acknowledgement.
pub const RETRIEVING_ACK_MSG_TYPE: u8 = 3;

/// An IP address as a number: 32 bits for version 4, 128 bits for version 6
/// (the number that `u32::from(Ipv4Addr)` and `u128::from(Ipv6Addr)` give).
#[derive(PartialEq, Eq, Structural, Clone, Copy, Debug)]
pub enum PeerIp {
    V4(u32),
    V6(u128),
}

/// A datagram between broadcast peers.
pub enum Message {
    /// A host asks who keeps a shard.
    SendingReq(PeerIp, Vec<u8>),
    /// A host asks for a shard back.
    RetrievingReq(PeerIp, Vec<u8>),
    /// A peer offers to keep a shard.
    SendingAck(Vec<u8>),
    /// A peer answers with a shard.
    RetrievingAck(Vec<u8>),
}

/// The decimal digits of a number, most significant first.
pub open spec fn decimal_text(n: nat) -> Seq<char>
    decreases n,
{
    if n < 10 {
        seq![(('0' as int) + n) as char]
    } else {
        decimal_text(n / 10) + seq![(('0' as int) + n % 10) as char]
    }
}

fn digit(d: u8) -> (s: String)
    requires
        d < 10,
    ensures
        s@ == seq![(('0' as int) + d) as char],
{
    let t: &str = if d == 0 {
        "0"
    } else if d == 1 {
        "1"
    } else if d == 2 {
        "2"
    } else if d == 3 {
        "3"
    } else if d == 4 {
        "4"
    } else if d == 5 {
        "5"
    } else if d == 6 {
        "6"
    } else if d == 7 {
        "7"
    } else if d == 8 {
        "8"
    } else {
        "9"
    };
    proof {
        reveal_strlit("0");
        reveal_strlit("1");
        reveal_strlit("2");
        reveal_strlit("3");
        reveal_strlit("4");
        reveal_strlit("5");
        reveal_strlit("6");
        reveal_strlit("7");
        reveal_strlit("8");
        reveal_strlit("9");
    }
    String::from_str(t)
}

/// The decimal text of a byte, as `to_string` writes it.
pub fn decimal(n: u8) -> (s: String)
    ensures
        s@ == decimal_text(n as nat),
{
    if n < 10 {
        digit(n)
    } else if n < 100 {
        let mut s = digit(n / 10);
        let last = digit(n % 10);
        s.append(last.as_str());
        assert(decimal_text((n / 10) as nat) == seq![(('0' as int) + n / 10) as char]);
        s
    } else {
        let mut s = digit(n / 100);
        let mid = digit((n / 10) % 10);
        let last = digit(n % 10);
        s.append(mid.as_str());
        s.append(last.as_str());
        assert(decimal_text((n / 100) as nat) == seq![(('0' as int) + n / 100) as char]);
        assert((n / 10) as nat / 10 == n / 100);
        assert(decimal_text((n / 10) as nat) == decimal_text((n / 100) as nat) + seq![
            (('0' as int) + (n / 10) % 10) as char,
        ]);
        s
    }
}

impl Message {
    /// The message of a type number for the sender's address and the bytes
    /// it carries; a number that stands for no type gives
    /// [`InvalidMessageTypeError`] with the number in decimal.
    pub fn build_message(ip: PeerIp, data: &[u8], msg_type: u8) -> (r: Result<Message, InvalidMessageTypeError>)
        ensures
            msg_type == SENDING_REQ_MSG_TYPE ==> (r matches Ok(Message::SendingReq(a, d)) && a == ip
                && d@ == data@),
            msg_type == RETRIEVING_REQ_MSG_TYPE ==> (r matches Ok(Message::RetrievingReq(a, d)) && a
                == ip && d@ == data@),
            msg_type == SENDING_ACK_MSG_TYPE ==> (r matches Ok(Message::SendingAck(d)) && d@ == data@),
            msg_type == RETRIEVING_ACK_MSG_TYPE ==> (r matches Ok(Message::RetrievingAck(d)) && d@
                == data@),
            msg_type > 3 ==> (r matches Err(e) && e.0@ == decimal_text(msg_type as nat)),
    {
        let data_vec = copy_bytes(data);
        if msg_type == SENDING_ACK_MSG_TYPE {
            Ok(Message::SendingAck(data_vec))
        } else if msg_type == SENDING_REQ_MSG_TYPE {
            Ok(Message::SendingReq(ip, data_vec))
        } else if msg_type == RETRIEVING_ACK_MSG_TYPE {
            Ok(Message::RetrievingAck(data_vec))
        } else if msg_type == RETRIEVING_REQ_MSG_TYPE {
            Ok(Message::RetrievingReq(ip, data_vec))
        } else {
            Err(InvalidMessageTypeError(decimal(msg_type)))
        }
    }

    /// Whether a datagram is the offer to keep the shard of a hash: a
    /// `SendingAck` that carries the hash.
    pub fn is_sending_ack_for(&self, hash: &[u8]) -> (b: bool)
        ensures
            b == (self matches Message::SendingAck(h) && h@ == hash@),
    {
        match self {
            Message::SendingAck(h) => same_bytes(h.as_slice(), hash),
            _ => false,
        }
    }

    /// Whether a datagram is the answer for the shard of a hash: a
    /// `RetrievingAck` that carries the hash.
    pub fn is_retrieving_ack_for(&self, hash: &[u8]) -> (b: bool)
        ensures
            b == (self matches Message::RetrievingAck(h) && h@ == hash@),
    {
        match self {
            Message::RetrievingAck(h) => same_bytes(h.as_slice(), hash),
            _ => false,
        }
    }
}

/// A number that stands for no message type, in decimal.
#[derive(Debug)]
pub struct InvalidMessageTypeError(pub String);

} // verus!
