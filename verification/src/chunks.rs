//! Shards of a file as they travel: each shard with its hash, the data and
//! recovery shards of a file together, and the hashes that a client keeps in
//! place of the file.
use vstd::prelude::*;
use vstd::string::StringExecFns;

use crate::bytes::{copy_bytes, zero_bytes, zeros};
use crate::crypto::{calc_hash, no_plaintext, pad16, streebog_hex, Encryptor, EncryptionError, DecryptionError};
use crate::message::Message;
use crate::shards::{
    block_size_for, concat, data_shards, groups_uniform, parity_from, recover, shard_count, split,
    views, padded_secret, lemma_groups_uniform, trim_trailing_zeros, DataRecoveringError,
    DataSplittingError,
};

verus! {

/// The message of the error for a shard whose content has another length
/// than its hash records.
pub const SIZE_MISMATCH_MESSAGE: &'static str = "Blocks sizes mismatch";

/// The message of the error for an answer that does not carry the requested
/// shard.
pub const WRONG_HASH_MESSAGE: &'static str = "Hash is incorrect";

/// The message of the error for a shard that no peer answered for.
pub const TIMEOUT_MESSAGE: &'static str = "Timeout";

/// The message of the error for a file of which a recovery shard could not
/// be received.
pub const INCOMPLETE_MESSAGE: &'static str = "Could not receive both data and recovery chunks";

// ---------------------------------------------------------------------------
// Hash of one shard
// ---------------------------------------------------------------------------
/// The hash of a shard and the shard's length.
#[derive(Debug)]
pub struct ReedSolomonChunkHash {
    pub value: String,
    pub size: usize,
}

impl ReedSolomonChunkHash {
    /// The hash and the length as plain values.
    pub open spec fn view(self) -> (Seq<char>, usize) {
        (self.value@, self.size)
    }

    /// The hash of a shard: its Streebog-256 digest in hexadecimal, and its
    /// length.
    pub fn from_chunk(chunk: &[u8]) -> (h: ReedSolomonChunkHash)
        ensures
            h.value@ == streebog_hex(chunk@),
            h.size == chunk@.len(),
    {
        ReedSolomonChunkHash { value: calc_hash(chunk), size: chunk.len() }
    }

    /// The hash.
    pub fn get_value(&self) -> (v: String)
        ensures
            v@ == self.value@,
    {
        self.value.clone()
    }

    /// The length of the shard.
    pub fn get_size(&self) -> (s: usize)
        ensures
            s == self.size,
    {
        self.size
    }
}

impl Clone for ReedSolomonChunkHash {
    fn clone(&self) -> (c: Self)
        ensures
            c.view() == self.view(),
    {
        ReedSolomonChunkHash { value: self.value.clone(), size: self.size }
    }
}

/// The plain value of an optional hash.
pub open spec fn hash_view(h: Option<ReedSolomonChunkHash>) -> Option<(Seq<char>, usize)> {
    match h {
        Some(h) => Some(h.view()),
        None => None,
    }
}

fn clone_hash(h: &Option<ReedSolomonChunkHash>) -> (c: Option<ReedSolomonChunkHash>)
    ensures
        hash_view(c) == hash_view(*h),
{
    match h {
        Some(h) => Some(h.clone()),
        None => None,
    }
}

// ---------------------------------------------------------------------------
// One shard
// ---------------------------------------------------------------------------
/// A shard and, once computed, its hash.
#[derive(Debug)]
pub struct ReedSolomonChunk {
    value: Vec<u8>,
    hash: Option<ReedSolomonChunkHash>,
}

impl ReedSolomonChunk {
    /// The content of the shard.
    pub closed spec fn value(self) -> Seq<u8> {
        self.value@
    }

    /// The hash of the shard, once computed.
    pub closed spec fn hash(self) -> Option<(Seq<char>, usize)> {
        hash_view(self.hash)
    }

    /// A shard without a hash.
    pub fn new(value: Vec<u8>) -> (c: ReedSolomonChunk)
        ensures
            c.value() == value@,
            c.hash() is None,
    {
        ReedSolomonChunk { value, hash: None }
    }

    /// The content of the shard.
    pub fn get_value(&self) -> (v: &Vec<u8>)
        ensures
            v@ == self.value(),
    {
        &self.value
    }

    /// Whether the hash of the shard is computed.
    pub fn has_hash(&self) -> (b: bool)
        ensures
            b == self.hash() is Some,
    {
        self.hash.is_some()
    }

    /// Replaces the content with its encryption; the hash is kept.
    pub fn encrypt<E: Encryptor>(&mut self, encryptor: &E) -> (r: Result<(), EncryptionError>)
        requires
            old(self).value().len() + 16 <= usize::MAX,
        ensures
            r is Ok,
            final(self).value() == encryptor.encrypted(old(self).value()),
            final(self).hash() == old(self).hash(),
    {
        self.value = encryptor.encrypt_chunk(self.value.as_slice());
        Ok(())
    }

    /// Replaces the content with its decryption; the hash is kept. A content
    /// that cannot be decrypted is left as it is and the error returned.
    pub fn decrypt<E: Encryptor>(&mut self, decryptor: &E) -> (r: Result<(), DecryptionError>)
        ensures
            (r is Ok) == (decryptor.decrypted(old(self).value()) is Some),
            r is Ok ==> Some(final(self).value()) == decryptor.decrypted(old(self).value()),
            r is Err ==> final(self).value() == old(self).value(),
            final(self).hash() == old(self).hash(),
            forall|p: Seq<u8>|
                #![trigger decryptor.encrypted(p)]
                decryptor.encrypted(p) == old(self).value() ==> r is Ok && final(self).value()
                    == decryptor.recovered(p),
    {
        match decryptor.decrypt_chunk(self.value.as_slice()) {
            Ok(v) => {
                self.value = v;
                Ok(())
            },
            Err(e) => Err(e),
        }
    }

    /// Computes the hash of the content.
    pub fn update_hash(&mut self) -> (r: Result<(), EncryptionError>)
        ensures
            r is Ok,
            final(self).value() == old(self).value(),
            final(self).hash() == Some((streebog_hex(old(self).value()), old(self).value().len() as usize)),
    {
        self.hash = Some(ReedSolomonChunkHash::from_chunk(self.value.as_slice()));
        Ok(())
    }

    /// The request that asks the domain who keeps the shard.
    pub fn sending_request(&self) -> (m: Message)
        requires
            self.hash() is Some,
        ensures
            m matches Message::SendingReq(h) && h@ == self.hash()->Some_0.0,
    {
        match &self.hash {
            Some(h) => Message::SendingReq(h.get_value()),
            None => Message::SendingReq(String::new()),
        }
    }

    /// An answer is the awaited offer when it comes from another host and is
    /// a `SendingAck` for the shard's hash.
    pub fn is_expected_ack(&self, answer: &Message, from_local_host: bool) -> (b: bool)
        requires
            self.hash() is Some,
        ensures
            b == (!from_local_host && answer is SendingAck && answer->SendingAck_0@
                == self.hash()->Some_0.0),
    {
        if from_local_host {
            return false;
        }
        match (answer, &self.hash) {
            (Message::SendingAck(h), Some(own)) => *h == own.value,
            _ => false,
        }
    }

    /// The message that hands the shard to the host that offered to keep it,
    /// and the hash that the client records for it.
    pub fn into_delivery(self) -> (r: (Message, ReedSolomonChunkHash))
        requires
            self.hash() is Some,
        ensures
            r.0 matches Message::ContentFilled(h, d) && h@ == self.hash()->Some_0.0 && d@
                == self.value(),
            Some(r.1.view()) == self.hash(),
    {
        match self.hash {
            Some(h) => (Message::ContentFilled(h.get_value(), self.value), h),
            None => {
                (
                    Message::ContentFilled(String::new(), self.value),
                    ReedSolomonChunkHash { value: String::new(), size: 0 },
                )
            },
        }
    }

    /// The request that asks the domain for the shard of a hash.
    pub fn retrieving_request(hash: &ReedSolomonChunkHash) -> (m: Message)
        ensures
            m matches Message::RetrievingReq(h) && h@ == hash.value@,
    {
        Message::RetrievingReq(hash.get_value())
    }

    /// Takes the answer to a retrieving request: a `ContentFilled` for the
    /// requested hash whose content has the recorded length gives the shard
    /// (without a hash); another length, another hash or another kind of
    /// message is refused.
    pub fn accept_content(answer: Message, hash: &ReedSolomonChunkHash) -> (r: Result<
        ReedSolomonChunk,
        ReceivingChunkError,
    >)
        ensures
            r matches Ok(c) ==> (answer matches Message::ContentFilled(h, d) && h@ == hash.value@
                && d@.len() == hash.size && c.value() == d@ && c.hash() is None),
            (r is Ok) == (answer is ContentFilled && answer->ContentFilled_0@ == hash.value@
                && answer->ContentFilled_1@.len() == hash.size),
            r matches Err(e) ==> e.0@ == (if answer is ContentFilled && answer->ContentFilled_0@
                == hash.value@ {
                SIZE_MISMATCH_MESSAGE@
            } else {
                WRONG_HASH_MESSAGE@
            }),
    {
        match answer {
            Message::ContentFilled(h, d) => {
                if h == hash.value {
                    if d.len() == hash.size {
                        return Ok(ReedSolomonChunk { value: d, hash: None });
                    }
                    return Err(ReceivingChunkError(String::from_str(SIZE_MISMATCH_MESSAGE)));
                }
                Err(ReceivingChunkError(String::from_str(WRONG_HASH_MESSAGE)))
            },
            _ => Err(ReceivingChunkError(String::from_str(WRONG_HASH_MESSAGE))),
        }
    }
}

// ---------------------------------------------------------------------------
// All shards of a file
// ---------------------------------------------------------------------------
/// The contents of a list of shards.
pub open spec fn values(s: Seq<ReedSolomonChunk>) -> Seq<Seq<u8>> {
    Seq::new(s.len(), |i: int| s[i].value())
}

/// The hashes of a list of shards.
pub open spec fn hashes(s: Seq<ReedSolomonChunk>) -> Seq<Option<(Seq<char>, usize)>> {
    Seq::new(s.len(), |i: int| s[i].hash())
}

/// The data shards and the recovery shards of a file.
#[derive(Debug)]
pub struct ReedSolomonChunks {
    data: Vec<ReedSolomonChunk>,
    recv: Vec<ReedSolomonChunk>,
}

/// Encrypts every shard of a list.
fn encrypt_all<E: Encryptor>(chunks: &Vec<ReedSolomonChunk>, encryptor: &E) -> (out: Vec<ReedSolomonChunk>)
    requires
        forall|i: int| 0 <= i < chunks@.len() ==> #[trigger] chunks@[i].value().len() + 16 <= usize::MAX,
    ensures
        out@.len() == chunks@.len(),
        forall|i: int|
            0 <= i < chunks@.len() ==> #[trigger] out@[i].value() == encryptor.encrypted(
                chunks@[i].value(),
            ),
        forall|i: int| 0 <= i < chunks@.len() ==> #[trigger] out@[i].hash() == chunks@[i].hash(),
{
    let mut out: Vec<ReedSolomonChunk> = Vec::new();
    let mut i: usize = 0;
    while i < chunks.len()
        invariant
            i <= chunks@.len(),
            out@.len() == i,
            forall|u: int| 0 <= u < chunks@.len() ==> #[trigger] chunks@[u].value().len() + 16 <= usize::MAX,
            forall|u: int|
                0 <= u < i ==> #[trigger] out@[u].value() == encryptor.encrypted(
                    chunks@[u].value(),
                ),
            forall|u: int| 0 <= u < i ==> #[trigger] out@[u].hash() == chunks@[u].hash(),
        decreases chunks@.len() - i,
    {
        let c = &chunks[i];
        assert(c.value().len() + 16 <= usize::MAX);
        let v = encryptor.encrypt_chunk(c.value.as_slice());
        out.push(ReedSolomonChunk { value: v, hash: clone_hash(&c.hash) });
        i += 1;
    }
    out
}

/// Decrypts every shard of a list, up to the first that cannot be decrypted.
fn decrypt_all<E: Encryptor>(chunks: &Vec<ReedSolomonChunk>, decryptor: &E) -> (r: Result<
    Vec<ReedSolomonChunk>,
    DecryptionError,
>)
    ensures
        (r is Ok) == (forall|i: int|
            0 <= i < chunks@.len() ==> #[trigger] decryptor.decrypted(chunks@[i].value()) is Some),
        r matches Ok(out) ==> out@.len() == chunks@.len() && (forall|i: int|
            0 <= i < chunks@.len() ==> Some(#[trigger] out@[i].value()) == decryptor.decrypted(
                chunks@[i].value(),
            )) && (forall|i: int|
            0 <= i < chunks@.len() ==> #[trigger] out@[i].hash() == chunks@[i].hash()) && (forall|
            i: int,
            p: Seq<u8>,
        |
            #![trigger decryptor.encrypted(p), out@[i]]
            0 <= i < chunks@.len() && decryptor.encrypted(p) == chunks@[i].value() ==> out@[i].value()
                == decryptor.recovered(p)),
        r is Err ==> exists|i: int|
            0 <= i < chunks@.len() && no_plaintext(decryptor, #[trigger] chunks@[i].value()),
{
    let mut out: Vec<ReedSolomonChunk> = Vec::new();
    let mut i: usize = 0;
    while i < chunks.len()
        invariant
            i <= chunks@.len(),
            out@.len() == i,
            forall|u: int| 0 <= u < i ==> #[trigger] decryptor.decrypted(chunks@[u].value()) is Some,
            forall|u: int|
                0 <= u < i ==> Some(#[trigger] out@[u].value()) == decryptor.decrypted(
                    chunks@[u].value(),
                ),
            forall|u: int| 0 <= u < i ==> #[trigger] out@[u].hash() == chunks@[u].hash(),
            forall|u: int, p: Seq<u8>|
                #![trigger decryptor.encrypted(p), out@[u]]
                0 <= u < i && decryptor.encrypted(p) == chunks@[u].value() ==> out@[u].value()
                    == decryptor.recovered(p),
        decreases chunks@.len() - i,
    {
        let c = &chunks[i];
        match decryptor.decrypt_chunk(c.value.as_slice()) {
            Ok(v) => {
                let ghost before = out@;
                out.push(ReedSolomonChunk { value: v, hash: clone_hash(&c.hash) });
                assert forall|u: int, p: Seq<u8>|
                    #![trigger decryptor.encrypted(p), out@[u]]
                    0 <= u < i + 1 && decryptor.encrypted(p) == chunks@[u].value() implies out@[u].value()
                        == decryptor.recovered(p) by {
                    if u < i {
                        assert(out@[u] == before[u]);
                    }
                }
            },
            Err(e) => {
                assert(!(decryptor.decrypted(chunks@[i as int].value()) is Some));
                assert(no_plaintext(decryptor, chunks@[i as int].value()));
                return Err(e);
            },
        }
        i += 1;
    }
    Ok(out)
}

/// Computes the hash of every shard of a list.
fn hash_all(chunks: &Vec<ReedSolomonChunk>) -> (out: Vec<ReedSolomonChunk>)
    ensures
        out@.len() == chunks@.len(),
        forall|i: int| 0 <= i < chunks@.len() ==> #[trigger] out@[i].value() == chunks@[i].value(),
        forall|i: int|
            0 <= i < chunks@.len() ==> #[trigger] out@[i].hash() == Some(
                (streebog_hex(chunks@[i].value()), chunks@[i].value().len() as usize),
            ),
{
    let mut out: Vec<ReedSolomonChunk> = Vec::new();
    let mut i: usize = 0;
    while i < chunks.len()
        invariant
            i <= chunks@.len(),
            out@.len() == i,
            forall|u: int| 0 <= u < i ==> #[trigger] out@[u].value() == chunks@[u].value(),
            forall|u: int|
                0 <= u < i ==> #[trigger] out@[u].hash() == Some(
                    (streebog_hex(chunks@[u].value()), chunks@[u].value().len() as usize),
                ),
        decreases chunks@.len() - i,
    {
        let c = &chunks[i];
        let h = ReedSolomonChunkHash::from_chunk(c.value.as_slice());
        let v = copy_bytes(c.value.as_slice());
        out.push(ReedSolomonChunk { value: v, hash: Some(h) });
        i += 1;
    }
    out
}

/// Shards without hashes from a list of contents.
fn wrap_all(contents: Vec<Vec<u8>>) -> (out: Vec<ReedSolomonChunk>)
    ensures
        values(out@) == views(contents@),
        forall|i: int| 0 <= i < out@.len() ==> (#[trigger] out@[i]).hash() is None,
{
    let mut out: Vec<ReedSolomonChunk> = Vec::new();
    let mut i: usize = 0;
    while i < contents.len()
        invariant
            i <= contents@.len(),
            out@.len() == i,
            forall|u: int| 0 <= u < i ==> (#[trigger] out@[u]).value() == contents@[u]@,
            forall|u: int| 0 <= u < i ==> (#[trigger] out@[u]).hash() is None,
        decreases contents@.len() - i,
    {
        out.push(ReedSolomonChunk { value: copy_bytes(contents[i].as_slice()), hash: None });
        i += 1;
    }
    assert(values(out@) =~= views(contents@));
    out
}

/// The contents of a list of shards.
fn unwrap_all(chunks: &Vec<ReedSolomonChunk>) -> (out: Vec<Vec<u8>>)
    ensures
        views(out@) == values(chunks@),
{
    let mut out: Vec<Vec<u8>> = Vec::new();
    let mut i: usize = 0;
    while i < chunks.len()
        invariant
            i <= chunks@.len(),
            out@.len() == i,
            forall|u: int| 0 <= u < i ==> (#[trigger] out@[u])@ == chunks@[u].value(),
        decreases chunks@.len() - i,
    {
        out.push(copy_bytes(chunks[i].value.as_slice()));
        i += 1;
    }
    assert(views(out@) =~= values(chunks@));
    out
}

/// The hashes of a list of shards that all have one.
fn collect_hashes(chunks: &Vec<ReedSolomonChunk>) -> (out: Vec<ReedSolomonChunkHash>)
    requires
        forall|i: int| 0 <= i < chunks@.len() ==> (#[trigger] chunks@[i]).hash() is Some,
    ensures
        out@.len() == chunks@.len(),
        forall|i: int| 0 <= i < chunks@.len() ==> Some((#[trigger] out@[i]).view()) == chunks@[i].hash(),
{
    let mut out: Vec<ReedSolomonChunkHash> = Vec::new();
    let mut i: usize = 0;
    while i < chunks.len()
        invariant
            i <= chunks@.len(),
            out@.len() == i,
            forall|u: int| 0 <= u < chunks@.len() ==> (#[trigger] chunks@[u]).hash() is Some,
            forall|u: int| 0 <= u < i ==> Some((#[trigger] out@[u]).view()) == chunks@[u].hash(),
        decreases chunks@.len() - i,
    {
        let h = match &chunks[i].hash {
            Some(h) => h.clone(),
            None => ReedSolomonChunkHash { value: String::new(), size: 0 },
        };
        out.push(h);
        i += 1;
    }
    out
}

impl ReedSolomonChunks {
    /// The contents of the data shards.
    pub closed spec fn data_values(self) -> Seq<Seq<u8>> {
        values(self.data@)
    }

    /// The contents of the recovery shards.
    pub closed spec fn recv_values(self) -> Seq<Seq<u8>> {
        values(self.recv@)
    }

    /// The hashes of the data shards.
    pub closed spec fn data_hashes(self) -> Seq<Option<(Seq<char>, usize)>> {
        hashes(self.data@)
    }

    /// The hashes of the recovery shards.
    pub closed spec fn recv_hashes(self) -> Seq<Option<(Seq<char>, usize)>> {
        hashes(self.recv@)
    }

    /// The number of data shards.
    pub fn data_count(&self) -> (n: usize)
        ensures
            n == self.data_values().len(),
    {
        self.data.len()
    }

    /// The number of recovery shards.
    pub fn recv_count(&self) -> (n: usize)
        ensures
            n == self.recv_values().len(),
    {
        self.recv.len()
    }

    /// The shards of a file's content: the data shards and recovery shards of
    /// `split`, none of them with a hash yet.
    pub fn from_content(content: Vec<u8>, estimate: usize) -> (r: Result<
        ReedSolomonChunks,
        DataSplittingError,
    >)
        requires
            content@.len() > 0,
        ensures
            r matches Ok(c) ==> {
                let bs = block_size_for(estimate as int) as nat;
                &&& c.data_values() == data_shards(content@, bs)
                &&& c.recv_values() == parity_from(c.data_values(), 0)
                &&& c.recv_values().len() == c.data_values().len()
                &&& forall|j: int|
                    0 <= j < c.recv_values().len() ==> #[trigger] c.recv_values()[j].len() == bs
                &&& forall|j: int| 0 <= j < c.data_hashes().len() ==> #[trigger] c.data_hashes()[j] is None
                &&& forall|j: int| 0 <= j < c.recv_hashes().len() ==> #[trigger] c.recv_hashes()[j] is None
            },
            r is Ok,
    {
        let (data, recv) = match split(content, estimate) {
            Ok(p) => p,
            Err(e) => return Err(e),
        };
        let ghost rv = views(recv@);
        let ghost rlen = recv@.len();
        assert forall|j: int| 0 <= j < rlen implies #[trigger] rv[j].len() == block_size_for(estimate as int) by {
            assert(rv[j] == recv@[j]@);
        }
        let c = ReedSolomonChunks { data: wrap_all(data), recv: wrap_all(recv) };
        Ok(c)
    }

    /// The content recovered from the shards: `recover` of the data and the
    /// recovery shards.
    pub fn into_content(self) -> (r: Result<Vec<u8>, DataRecoveringError>)
        requires
            self.recv_values().len() >= self.data_values().len(),
        ensures
            (r is Ok) == groups_uniform(self.data_values(), self.recv_values(), 0),
            r matches Ok(content) ==> content@ == trim_trailing_zeros(concat(self.data_values())),
    {
        let data = unwrap_all(&self.data);
        let recv = unwrap_all(&self.recv);
        recover(data, recv)
    }

    /// Encrypts every shard, the data shards first; the hashes are kept.
    pub fn encrypt<E: Encryptor>(&mut self, encryptor: &E) -> (r: Result<(), EncryptionError>)
        requires
            forall|i: int|
                0 <= i < old(self).data_values().len() ==> #[trigger] old(self).data_values()[i].len()
                    + 16 <= usize::MAX,
            forall|i: int|
                0 <= i < old(self).recv_values().len() ==> #[trigger] old(self).recv_values()[i].len()
                    + 16 <= usize::MAX,
        ensures
            r is Ok,
            final(self).data_values() == old(self).data_values().map_values(
                |v: Seq<u8>| encryptor.encrypted(v),
            ),
            final(self).recv_values() == old(self).recv_values().map_values(
                |v: Seq<u8>| encryptor.encrypted(v),
            ),
            final(self).data_hashes() == old(self).data_hashes(),
            final(self).recv_hashes() == old(self).recv_hashes(),
    {
        let ghost d0 = self.data@;
        let ghost r0 = self.recv@;
        assert forall|i: int| 0 <= i < d0.len() implies #[trigger] d0[i].value().len() + 16 <= usize::MAX by {
            assert(old(self).data_values()[i] == d0[i].value());
        }
        assert forall|i: int| 0 <= i < r0.len() implies #[trigger] r0[i].value().len() + 16 <= usize::MAX by {
            assert(old(self).recv_values()[i] == r0[i].value());
        }
        let data = encrypt_all(&self.data, encryptor);
        let recv = encrypt_all(&self.recv, encryptor);
        self.data = data;
        self.recv = recv;
        assert(values(self.data@) =~= values(d0).map_values(|v: Seq<u8>| encryptor.encrypted(v)));
        assert(values(self.recv@) =~= values(r0).map_values(|v: Seq<u8>| encryptor.encrypted(v)));
        assert(hashes(self.data@) =~= hashes(d0));
        assert(hashes(self.recv@) =~= hashes(r0));
        Ok(())
    }

    /// Decrypts every shard, the data shards first. Where a shard cannot be
    /// decrypted the error is returned.
    pub fn decrypt<E: Encryptor>(&mut self, decryptor: &E) -> (r: Result<(), DecryptionError>)
        ensures
            (r is Ok) == ((forall|i: int|
                0 <= i < old(self).data_values().len() ==> #[trigger] decryptor.decrypted(
                    old(self).data_values()[i],
                ) is Some) && (forall|i: int|
                0 <= i < old(self).recv_values().len() ==> #[trigger] decryptor.decrypted(
                    old(self).recv_values()[i],
                ) is Some)),
            r is Ok ==> final(self).data_values().len() == old(self).data_values().len()
                && forall|i: int|
                0 <= i < old(self).data_values().len() ==> Some(
                    #[trigger] final(self).data_values()[i],
                ) == decryptor.decrypted(old(self).data_values()[i]),
            r is Ok ==> final(self).recv_values().len() == old(self).recv_values().len()
                && forall|i: int|
                0 <= i < old(self).recv_values().len() ==> Some(
                    #[trigger] final(self).recv_values()[i],
                ) == decryptor.decrypted(old(self).recv_values()[i]),
            r is Ok ==> final(self).data_hashes() == old(self).data_hashes()
                && final(self).recv_hashes() == old(self).recv_hashes(),
            r is Ok ==> forall|i: int, p: Seq<u8>|
                #![trigger decryptor.encrypted(p), final(self).data_values()[i]]
                0 <= i < old(self).data_values().len() && decryptor.encrypted(p) == old(
                    self,
                ).data_values()[i] ==> final(self).data_values()[i] == decryptor.recovered(p),
            r is Ok ==> forall|i: int, p: Seq<u8>|
                #![trigger decryptor.encrypted(p), final(self).recv_values()[i]]
                0 <= i < old(self).recv_values().len() && decryptor.encrypted(p) == old(
                    self,
                ).recv_values()[i] ==> final(self).recv_values()[i] == decryptor.recovered(p),
            r is Err ==> (exists|i: int|
                0 <= i < old(self).data_values().len() && no_plaintext(
                    decryptor,
                    #[trigger] old(self).data_values()[i],
                )) || (exists|i: int|
                0 <= i < old(self).recv_values().len() && no_plaintext(
                    decryptor,
                    #[trigger] old(self).recv_values()[i],
                )),
    {
        let ghost d0 = self.data@;
        let ghost r0 = self.recv@;
        let data = match decrypt_all(&self.data, decryptor) {
            Ok(d) => d,
            Err(e) => {
                proof {
                    let i = choose|i: int|
                        0 <= i < d0.len() && !(#[trigger] decryptor.decrypted(d0[i].value()) is Some);
                    assert(values(d0)[i] == d0[i].value());
                    let j = choose|j: int|
                        0 <= j < d0.len() && no_plaintext(decryptor, #[trigger] d0[j].value());
                    assert(values(d0)[j] == d0[j].value());
                }
                return Err(e);
            },
        };
        let recv = match decrypt_all(&self.recv, decryptor) {
            Ok(d) => d,
            Err(e) => {
                proof {
                    let i = choose|i: int|
                        0 <= i < r0.len() && !(#[trigger] decryptor.decrypted(r0[i].value()) is Some);
                    assert(values(r0)[i] == r0[i].value());
                    let j = choose|j: int|
                        0 <= j < r0.len() && no_plaintext(decryptor, #[trigger] r0[j].value());
                    assert(values(r0)[j] == r0[j].value());
                }
                return Err(e);
            },
        };
        self.data = data;
        self.recv = recv;
        assert forall|i: int| 0 <= i < values(d0).len() implies #[trigger] decryptor.decrypted(
            values(d0)[i],
        ) is Some by {
            assert(values(d0)[i] == d0[i].value());
        }
        assert forall|i: int| 0 <= i < values(r0).len() implies #[trigger] decryptor.decrypted(
            values(r0)[i],
        ) is Some by {
            assert(values(r0)[i] == r0[i].value());
        }
        assert(hashes(self.data@) =~= hashes(d0));
        assert(hashes(self.recv@) =~= hashes(r0));
        assert forall|i: int, p: Seq<u8>|
            #![trigger decryptor.encrypted(p), values(self.data@)[i]]
            0 <= i < values(d0).len() && decryptor.encrypted(p) == values(d0)[i] implies values(
                self.data@,
            )[i] == decryptor.recovered(p) by {
            assert(values(d0)[i] == d0[i].value());
            assert(values(self.data@)[i] == self.data@[i].value());
        }
        assert forall|i: int, p: Seq<u8>|
            #![trigger decryptor.encrypted(p), values(self.recv@)[i]]
            0 <= i < values(r0).len() && decryptor.encrypted(p) == values(r0)[i] implies values(
                self.recv@,
            )[i] == decryptor.recovered(p) by {
            assert(values(r0)[i] == r0[i].value());
            assert(values(self.recv@)[i] == self.recv@[i].value());
        }
        Ok(())
    }

    /// Computes the hash of every shard.
    pub fn update_hashes(&mut self) -> (r: Result<(), EncryptionError>)
        ensures
            r is Ok,
            final(self).data_values() == old(self).data_values(),
            final(self).recv_values() == old(self).recv_values(),
            final(self).data_hashes() == old(self).data_values().map_values(
                |v: Seq<u8>| Some((streebog_hex(v), v.len() as usize)),
            ),
            final(self).recv_hashes() == old(self).recv_values().map_values(
                |v: Seq<u8>| Some((streebog_hex(v), v.len() as usize)),
            ),
    {
        let ghost d0 = self.data@;
        let ghost r0 = self.recv@;
        let data = hash_all(&self.data);
        let recv = hash_all(&self.recv);
        self.data = data;
        self.recv = recv;
        assert(values(self.data@) =~= values(d0));
        assert(values(self.recv@) =~= values(r0));
        assert(hashes(self.data@) =~= values(d0).map_values(
            |v: Seq<u8>| Some((streebog_hex(v), v.len() as usize)),
        ));
        assert(hashes(self.recv@) =~= values(r0).map_values(
            |v: Seq<u8>| Some((streebog_hex(v), v.len() as usize)),
        ));
        Ok(())
    }

    /// The hashes that a successful sending of every shard gives back: the
    /// hash of each shard, in order.
    pub fn expected_hashes(&self) -> (h: ReedSolomonChunksHashes)
        requires
            forall|i: int|
                0 <= i < self.data_hashes().len() ==> #[trigger] self.data_hashes()[i] is Some,
            forall|i: int|
                0 <= i < self.recv_hashes().len() ==> #[trigger] self.recv_hashes()[i] is Some,
        ensures
            h.data_view() == self.data_hashes().map_values(
                |o: Option<(Seq<char>, usize)>| o->Some_0,
            ),
            h.recv_view() == self.recv_hashes().map_values(
                |o: Option<(Seq<char>, usize)>| o->Some_0,
            ),
    {
        assert forall|i: int| 0 <= i < self.data@.len() implies (#[trigger] self.data@[i]).hash() is Some by {
            assert(self.data_hashes()[i] == self.data@[i].hash());
        }
        assert forall|i: int| 0 <= i < self.recv@.len() implies (#[trigger] self.recv@[i]).hash() is Some by {
            assert(self.recv_hashes()[i] == self.recv@[i].hash());
        }
        let data = collect_hashes(&self.data);
        let recv = collect_hashes(&self.recv);
        let h = ReedSolomonChunksHashes { data, recv };
        assert(h.data_view() =~= self.data_hashes().map_values(
            |o: Option<(Seq<char>, usize)>| o->Some_0,
        ));
        assert(h.recv_view() =~= self.recv_hashes().map_values(
            |o: Option<(Seq<char>, usize)>| o->Some_0,
        ));
        h
    }

    /// The data shards and the recovery shards, to be sent one by one.
    pub fn into_parts(self) -> (r: (Vec<ReedSolomonChunk>, Vec<ReedSolomonChunk>))
        ensures
            values(r.0@) == self.data_values(),
            values(r.1@) == self.recv_values(),
            hashes(r.0@) == self.data_hashes(),
            hashes(r.1@) == self.recv_hashes(),
    {
        (self.data, self.recv)
    }
}

// ---------------------------------------------------------------------------
// Receiving the shards of a file
// ---------------------------------------------------------------------------
/// A received content, or zero bytes of the recorded length where none was
/// received.
pub open spec fn received_or_zeros(received: Option<Vec<u8>>, size: usize) -> Seq<u8> {
    match received {
        Some(v) => v@,
        None => zero_bytes(size as nat),
    }
}

/// The recovery list that receiving builds: for each index that was
/// attempted, a zero shard of the recovery size where the data shard of that
/// index did arrive, then the received recovery shard.
pub open spec fn assembled_recovery(
    data: Seq<Option<Vec<u8>>>,
    sizes: Seq<usize>,
    recv: Seq<Option<Vec<u8>>>,
) -> Seq<Seq<u8>>
    decreases recv.len(),
{
    if recv.len() == 0 {
        Seq::empty()
    } else {
        let i = recv.len() - 1;
        assembled_recovery(data, sizes, recv.drop_last()) + (if data[i] is Some {
            seq![zero_bytes(sizes[i] as nat)]
        } else {
            Seq::empty()
        }) + seq![received_or_zeros(recv[i], sizes[i])]
    }
}

impl ReedSolomonChunks {
    /// Builds the shards of a file from what arrived: `data[i]` is the data
    /// shard received for hash `i` (`None` where it did not arrive, and a
    /// zero shard of the recorded length takes its place), and `recv[i]` is
    /// the recovery shard received for hash `i`, for the indices tried in
    /// order; trying stops at the first recovery shard that does not
    /// arrive. Where one did not arrive the file is refused.
    pub fn assemble(
        hashes: &ReedSolomonChunksHashes,
        data: Vec<Option<Vec<u8>>>,
        recv: Vec<Option<Vec<u8>>>,
    ) -> (r: Result<ReedSolomonChunks, ReceivingChunkError>)
        requires
            data@.len() == hashes.data@.len(),
            recv@.len() <= hashes.data@.len(),
            hashes.recv@.len() >= hashes.data@.len(),
        ensures
            (r is Ok) == (forall|i: int| 0 <= i < recv@.len() ==> #[trigger] recv@[i] is Some),
            r matches Err(e) ==> e.0@ == INCOMPLETE_MESSAGE@,
            r matches Ok(c) ==> c.data_values() == Seq::new(
                data@.len(),
                |i: int| received_or_zeros(data@[i], hashes.data@[i].size),
            ) && c.recv_values() == assembled_recovery(
                data@,
                Seq::new(hashes.recv@.len(), |i: int| hashes.recv@[i].size),
                recv@,
            ),
    {
        let ghost sizes = Seq::new(hashes.recv@.len(), |i: int| hashes.recv@[i].size);
        let mut chunks_data: Vec<ReedSolomonChunk> = Vec::new();
        let mut i: usize = 0;
        while i < data.len()
            invariant
                i <= data@.len(),
                data@.len() == hashes.data@.len(),
                chunks_data@.len() == i,
                forall|u: int|
                    0 <= u < i ==> (#[trigger] chunks_data@[u]).value() == received_or_zeros(
                        data@[u],
                        hashes.data@[u].size,
                    ),
            decreases data@.len() - i,
        {
            let v = match &data[i] {
                Some(v) => copy_bytes(v),
                None => zeros(hashes.data[i].size),
            };
            chunks_data.push(ReedSolomonChunk { value: v, hash: None });
            i += 1;
        }
        let mut chunks_recv: Vec<ReedSolomonChunk> = Vec::new();
        let mut i: usize = 0;
        while i < recv.len()
            invariant
                i <= recv@.len(),
                recv@.len() <= hashes.data@.len(),
                data@.len() == hashes.data@.len(),
                hashes.recv@.len() >= hashes.data@.len(),
                sizes == Seq::new(hashes.recv@.len(), |u: int| hashes.recv@[u].size),
                forall|u: int| 0 <= u < i ==> #[trigger] recv@[u] is Some,
                values(chunks_recv@) == assembled_recovery(data@, sizes, recv@.subrange(0, i as int)),
            decreases recv@.len() - i,
        {
            let ghost before = chunks_recv@;
            let size = hashes.recv[i].size;
            if data[i].is_some() {
                chunks_recv.push(ReedSolomonChunk { value: zeros(size), hash: None });
            }
            match &recv[i] {
                Some(v) => {
                    chunks_recv.push(ReedSolomonChunk { value: copy_bytes(v), hash: None });
                },
                None => {
                    return Err(ReceivingChunkError(String::from_str(INCOMPLETE_MESSAGE)));
                },
            }
            proof {
                let s = recv@.subrange(0, i + 1);
                assert(s.drop_last() =~= recv@.subrange(0, i as int));
                assert(values(chunks_recv@) =~= assembled_recovery(data@, sizes, s));
            }
            i += 1;
        }
        assert(recv@.subrange(0, recv@.len() as int) =~= recv@);
        let c = ReedSolomonChunks { data: chunks_data, recv: chunks_recv };
        assert(values(c.data@) =~= Seq::new(
            data@.len(),
            |u: int| received_or_zeros(data@[u], hashes.data@[u].size),
        ));
        Ok(c)
    }
}

// ---------------------------------------------------------------------------
// The order in which the shards of a file are asked for
// ---------------------------------------------------------------------------
/// A shard to ask the domain for, by the index of its hash.
#[derive(PartialEq, Eq, Structural, Clone, Copy, Debug)]
pub enum ShardRequest {
    /// The data shard of hash `i`.
    Data(usize),
    /// The recovery shard of hash `i`.
    Recovery(usize),
}

/// What is asked for next, given how many hashes there are, how many data
/// shards were asked for and what came of the recovery shards asked for:
/// every data shard in order, then the recovery shards in order, up to the
/// first one that does not arrive.
pub open spec fn request_after(count: nat, data_len: nat, recv: Seq<Option<Vec<u8>>>) -> Option<
    ShardRequest,
> {
    if data_len < count {
        Some(ShardRequest::Data(data_len as usize))
    } else if recv.len() < count && (recv.len() == 0 || recv.last() is Some) {
        Some(ShardRequest::Recovery(recv.len() as usize))
    } else {
        None
    }
}

/// The shards of a file received so far, and which one to ask for next.
pub struct ReceivePlan {
    count: usize,
    data: Vec<Option<Vec<u8>>>,
    recv: Vec<Option<Vec<u8>>>,
}

impl ReceivePlan {
    #[verifier::type_invariant]
    spec fn in_order(self) -> bool {
        &&& self.data@.len() <= self.count
        &&& self.recv@.len() <= self.count
        &&& self.recv@.len() > 0 ==> self.data@.len() == self.count
        &&& forall|i: int| 0 <= i < self.recv@.len() - 1 ==> #[trigger] self.recv@[i] is Some
    }

    /// The number of hashes of the file.
    pub closed spec fn count(self) -> nat {
        self.count as nat
    }

    /// The data shards received so far, `None` where one did not arrive.
    pub closed spec fn data(self) -> Seq<Option<Vec<u8>>> {
        self.data@
    }

    /// The recovery shards received so far, `None` where one did not arrive.
    pub closed spec fn recv(self) -> Seq<Option<Vec<u8>>> {
        self.recv@
    }

    /// What is to be asked for next.
    pub open spec fn pending(self) -> Option<ShardRequest> {
        request_after(self.count(), self.data().len(), self.recv())
    }

    /// The plan for a file of `count` hashes, nothing asked for yet.
    pub fn new(count: usize) -> (p: ReceivePlan)
        ensures
            p.count() == count,
            p.data() == Seq::<Option<Vec<u8>>>::empty(),
            p.recv() == Seq::<Option<Vec<u8>>>::empty(),
    {
        ReceivePlan { count, data: Vec::new(), recv: Vec::new() }
    }

    /// The shard to ask for next, or `None` when receiving is over.
    pub fn next_request(&self) -> (r: Option<ShardRequest>)
        ensures
            r == self.pending(),
    {
        proof {
            use_type_invariant(self);
        }
        if self.data.len() < self.count {
            Some(ShardRequest::Data(self.data.len()))
        } else if self.recv.len() < self.count && (self.recv.len() == 0 || self.recv[self.recv.len()
            - 1].is_some()) {
            Some(ShardRequest::Recovery(self.recv.len()))
        } else {
            None
        }
    }

    /// Records what came of the shard asked for: the shard, or `None` where
    /// it did not arrive.
    pub fn record(&mut self, shard: Option<Vec<u8>>)
        requires
            old(self).pending() is Some,
        ensures
            final(self).count() == old(self).count(),
            old(self).pending() matches Some(ShardRequest::Data(_)) ==> final(self).data() == old(
                self,
            ).data().push(shard) && final(self).recv() == old(self).recv(),
            old(self).pending() matches Some(ShardRequest::Recovery(_)) ==> final(self).recv() == old(
                self,
            ).recv().push(shard) && final(self).data() == old(self).data(),
    {
        proof {
            use_type_invariant(&*self);
        }
        if self.data.len() < self.count {
            let mut data: Vec<Option<Vec<u8>>> = Vec::new();
            std::mem::swap(&mut data, &mut self.data);
            data.push(shard);
            self.data = data;
        } else {
            let ghost before = self.recv@;
            let mut recv: Vec<Option<Vec<u8>>> = Vec::new();
            std::mem::swap(&mut recv, &mut self.recv);
            recv.push(shard);
            assert forall|i: int| 0 <= i < recv@.len() - 1 implies #[trigger] recv@[i] is Some by {
                if i < before.len() - 1 {
                    assert(recv@[i] == before[i]);
                } else {
                    assert(recv@[i] == before.last());
                }
            }
            self.recv = recv;
        }
    }

    /// The data shards and the recovery shards received, once receiving is
    /// over: a data entry for every hash, and the recovery shards up to the
    /// first that did not arrive (that one included).
    pub fn into_received(self) -> (r: (Vec<Option<Vec<u8>>>, Vec<Option<Vec<u8>>>))
        requires
            self.pending() is None,
        ensures
            r.0@ == self.data(),
            r.1@ == self.recv(),
            r.0@.len() == self.count(),
            r.1@.len() <= self.count(),
            forall|i: int| 0 <= i < r.1@.len() - 1 ==> #[trigger] r.1@[i] is Some,
            r.1@.len() < self.count() ==> r.1@.len() > 0 && r.1@.last() is None,
    {
        proof {
            use_type_invariant(&self);
        }
        (self.data, self.recv)
    }
}

// ---------------------------------------------------------------------------
// The hashes a client keeps
// ---------------------------------------------------------------------------
/// The hashes of the data shards and of the recovery shards of a file.
#[derive(Debug)]
pub struct ReedSolomonChunksHashes {
    pub data: Vec<ReedSolomonChunkHash>,
    pub recv: Vec<ReedSolomonChunkHash>,
}

impl ReedSolomonChunksHashes {
    /// The hashes of the data shards as plain values.
    pub open spec fn data_view(self) -> Seq<(Seq<char>, usize)> {
        Seq::new(self.data@.len(), |i: int| self.data@[i].view())
    }

    /// The hashes of the recovery shards as plain values.
    pub open spec fn recv_view(self) -> Seq<(Seq<char>, usize)> {
        Seq::new(self.recv@.len(), |i: int| self.recv@[i].view())
    }

    /// The number of data shards.
    pub fn len(&self) -> (n: usize)
        ensures
            n == self.data@.len(),
    {
        self.data.len()
    }

    /// The hash of data shard `index`.
    pub fn get_data_hash(&self, index: usize) -> (h: ReedSolomonChunkHash)
        requires
            index < self.data@.len(),
        ensures
            h.view() == self.data@[index as int].view(),
    {
        self.data[index].clone()
    }

    /// The hash of recovery shard `index`.
    pub fn get_recv_hash(&self, index: usize) -> (h: ReedSolomonChunkHash)
        requires
            index < self.recv@.len(),
        ensures
            h.view() == self.recv@[index as int].view(),
    {
        self.recv[index].clone()
    }
}

// ---------------------------------------------------------------------------
// Laws
// ---------------------------------------------------------------------------
/// Every shard of a file is a whole number of 16-byte cipher blocks long:
/// the data shards and the recovery shards have the block size, a multiple
/// of the block alignment. So the Kuznyechik encryptor pads none of them, and the
/// decryption of an encrypted shard gives the shard itself back.
pub proof fn lemma_shards_need_no_padding(content: Seq<u8>, estimate: int)
    requires
        content.len() > 0,
    ensures
        forall|j: int|
            0 <= j < data_shards(content, block_size_for(estimate) as nat).len() ==> pad16(
                #[trigger] data_shards(content, block_size_for(estimate) as nat)[j],
            ) == data_shards(content, block_size_for(estimate) as nat)[j],
        forall|s: Seq<u8>| #[trigger] s.len() == block_size_for(estimate) ==> pad16(s) == s,
{
    let bs = block_size_for(estimate);
    assert(bs % 16 == 0 && bs >= 64) by (nonlinear_arith)
        requires
            bs == block_size_for(estimate),
    ;
    assert forall|s: Seq<u8>| #[trigger] s.len() == bs implies pad16(s) == s by {
        assert(s.len() % 16 == 0);
        assert(pad16(s) =~= s);
    }
    let d = data_shards(content, bs as nat);
    let c = shard_count(content.len(), bs as nat);
    assert(c * bs >= content.len()) by (nonlinear_arith)
        requires
            bs > 0,
            c == (content.len() + bs - 1) / bs,
    ;
    let padded = padded_secret(content, bs as nat);
    assert(padded.len() == c * bs);
    assert forall|j: int| 0 <= j < d.len() implies pad16(#[trigger] d[j]) == d[j] by {
        assert(0 <= bs * j && bs * j + bs <= c * bs) by (nonlinear_arith)
            requires
                0 <= j < c,
                bs > 0,
        ;
        assert(d[j] == padded.subrange(bs * j, bs * j + bs));
        assert(d[j].len() == bs);
    }
}

proof fn lemma_assembled_lengths(
    data: Seq<Option<Vec<u8>>>,
    sizes: Seq<usize>,
    recv: Seq<Option<Vec<u8>>>,
    bs: nat,
)
    requires
        recv.len() <= data.len(),
        recv.len() <= sizes.len(),
        forall|i: int| 0 <= i < data.len() ==> #[trigger] data[i] is Some,
        forall|i: int| 0 <= i < recv.len() ==> #[trigger] recv[i] is Some && recv[i]->Some_0@.len() == bs,
        forall|i: int| 0 <= i < recv.len() ==> #[trigger] sizes[i] == bs,
    ensures
        assembled_recovery(data, sizes, recv).len() == 2 * recv.len(),
        forall|j: int|
            0 <= j < 2 * recv.len() ==> (#[trigger] assembled_recovery(data, sizes, recv)[j]).len()
                == bs,
    decreases recv.len(),
{
    if recv.len() > 0 {
        let i = recv.len() - 1;
        lemma_assembled_lengths(data, sizes, recv.drop_last(), bs);
        let prev = assembled_recovery(data, sizes, recv.drop_last());
        let a = assembled_recovery(data, sizes, recv);
        assert(data[i] is Some);
        assert(a == prev + seq![zero_bytes(sizes[i] as nat)] + seq![received_or_zeros(recv[i], sizes[i])]);
        assert forall|j: int| 0 <= j < 2 * recv.len() implies (#[trigger] a[j]).len() == bs by {
            if j < prev.len() {
                assert(a[j] == prev[j]);
            } else if j == prev.len() {
                assert(a[j] == zero_bytes(sizes[i] as nat));
            } else {
                assert(a[j] == received_or_zeros(recv[i], sizes[i]));
            }
        }
    }
}

/// When every data shard of a file arrives with the block size, and every
/// recovery shard too, the assembled shards pass recovery, which then gives
/// the data shards joined: the zero shards that assembling puts into the
/// recovery list for the data shards that arrived do no harm.
pub proof fn lemma_complete_arrival_recovers(
    data: Seq<Option<Vec<u8>>>,
    data_sizes: Seq<usize>,
    recv_sizes: Seq<usize>,
    recv: Seq<Option<Vec<u8>>>,
    bs: nat,
)
    requires
        bs > 0,
        recv.len() == data.len(),
        data_sizes.len() == data.len(),
        recv_sizes.len() >= data.len(),
        forall|i: int| 0 <= i < data.len() ==> #[trigger] data[i] is Some && data[i]->Some_0@.len() == bs,
        forall|i: int| 0 <= i < recv.len() ==> #[trigger] recv[i] is Some && recv[i]->Some_0@.len() == bs,
        forall|i: int| 0 <= i < data.len() ==> #[trigger] recv_sizes[i] == bs,
    ensures
        groups_uniform(
            Seq::new(data.len(), |i: int| received_or_zeros(data[i], data_sizes[i])),
            assembled_recovery(data, recv_sizes, recv),
            0,
        ),
        concat(Seq::new(data.len(), |i: int| received_or_zeros(data[i], data_sizes[i]))) == concat(
            Seq::new(data.len(), |i: int| data[i]->Some_0@),
        ),
{
    let d = Seq::new(data.len(), |i: int| received_or_zeros(data[i], data_sizes[i]));
    let r = assembled_recovery(data, recv_sizes, recv);
    lemma_assembled_lengths(data, recv_sizes, recv, bs);
    assert forall|j: int| 0 <= j < d.len() implies #[trigger] d[j].len() == bs by {
        assert(d[j] == data[j]->Some_0@);
    }
    assert forall|j: int| 0 <= j < d.len() implies #[trigger] r[j].len() == bs by {
        assert(0 <= j < 2 * recv.len());
    }
    lemma_groups_uniform(d, r, bs, 0);
    assert(d =~= Seq::new(data.len(), |i: int| data[i]->Some_0@));
}

// ---------------------------------------------------------------------------
// Errors
// ---------------------------------------------------------------------------
/// A shard could not be sent.
#[derive(Debug)]
pub struct SendingChunkError(pub String);

/// A shard could not be received.
#[derive(Debug)]
pub struct ReceivingChunkError(pub String);

} // verus!
