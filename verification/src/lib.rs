//! Leaf: a distributed store that splits a file into Reed-Solomon shards,
//! encrypts each shard, names it by its Streebog digest and hands it to the
//! peers of a broadcast domain.
use vstd::prelude::*;

pub mod assoc;
pub mod bytes;
pub mod encoding;
pub mod crypto;
pub mod ofb;
pub mod credentials;
pub mod aes;
pub mod ige;
pub mod sharer;
pub mod sha;
pub mod shards;
pub mod sharing;
pub mod message;
pub mod chunks;
pub mod storage;
pub mod server;
pub mod codec;
pub mod datagram;
pub mod broadcast;
pub mod args;
pub mod meta;
pub mod parts;
pub mod notify;
pub mod service;
pub mod kvstore;
pub mod chunkstore;
pub mod peer;

verus! {

} // verus!
