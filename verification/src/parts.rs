//! The parts of a file on the client side: the data parts and the recovery
//! parts of the file, each with the hexadecimal Streebog digest that names it, and the
//! metadata that replaces the file (both lists one after the other).
use vstd::prelude::*;

use crate::bytes::{copy_all, zero_bytes, zeros};
use crate::crypto::{calc_digest, streebog_hex, Encryptor, KuznechikEncryptor};
use crate::encoding::{ascii_bytes, hex_ascii};
use crate::ofb;
use crate::shards::{concat, groups_uniform, recover, trim_trailing_zeros, views};
use crate::sharing::{file_block_size, sharing_blocks, ReedSolomonSecretSharer};
use vstd::utf8::valid_utf8;

verus! {

/// The views of a list of byte vectors.
pub open spec fn seqs(v: Seq<Vec<u8>>) -> Seq<Seq<u8>> {
    Seq::new(v.len(), |i: int| v[i]@)
}

/// The name of a part: the lower-case hexadecimal text of its
/// Streebog-256 digest, as ASCII bytes.
pub open spec fn part_hash(part: Seq<u8>) -> Seq<u8> {
    ascii_bytes(streebog_hex(part))
}

/// The name of a part.
fn calc_part_hash(part: &[u8]) -> (h: Vec<u8>)
    ensures
        h@ == part_hash(part@),
{
    let digest = calc_digest(part);
    hex_ascii(digest.as_slice())
}

/// Parts of a file and their digests.
pub struct FileParts {
    data: Vec<Vec<u8>>,
    hashes: Vec<Vec<u8>>,
}

impl FileParts {
    /// The contents of the parts.
    pub closed spec fn data(self) -> Seq<Seq<u8>> {
        seqs(self.data@)
    }

    /// The digests of the parts.
    pub closed spec fn hashes(self) -> Seq<Seq<u8>> {
        seqs(self.hashes@)
    }

    /// Parts with their digests.
    pub fn new(data: Vec<Vec<u8>>, hashes: Vec<Vec<u8>>) -> (p: FileParts)
        ensures
            p.data() == seqs(data@),
            p.hashes() == seqs(hashes@),
    {
        FileParts { data, hashes }
    }

    /// Names every part by its hexadecimal digest, in place of the names
    /// it had.
    pub fn calc_hashes(&mut self)
        ensures
            final(self).data() == old(self).data(),
            final(self).hashes() == old(self).data().map_values(|d: Seq<u8>| part_hash(d)),
    {
        let mut data_hashes: Vec<Vec<u8>> = Vec::new();
        let mut i: usize = 0;
        while i < self.data.len()
            invariant
                i <= self.data@.len(),
                data_hashes@.len() == i,
                forall|u: int| 0 <= u < i ==> (#[trigger] data_hashes@[u])@ == part_hash(self.data@[u]@),
            decreases self.data@.len() - i,
        {
            data_hashes.push(calc_part_hash(self.data[i].as_slice()));
            i += 1;
        }
        self.hashes = data_hashes;
        assert(seqs(self.hashes@) =~= seqs(self.data@).map_values(|d: Seq<u8>| part_hash(d)));
    }

    /// The data parts and the recovery parts of the shards of a file: the
    /// first half of the shards and the rest, without digests.
    pub fn from_chunks(chunks: Vec<Vec<u8>>) -> (r: (FileParts, FileParts))
        ensures
            r.0.data() == seqs(chunks@).subrange(0, chunks@.len() as int / 2),
            r.1.data() == seqs(chunks@).subrange(chunks@.len() as int / 2, chunks@.len() as int),
            r.0.hashes().len() == 0,
            r.1.hashes().len() == 0,
    {
        let half = chunks.len() / 2;
        let (data, recovery) = split_list(chunks, half);
        let r = (
            FileParts { data, hashes: Vec::new() },
            FileParts { data: recovery, hashes: Vec::new() },
        );
        assert(seqs(Seq::<Vec<u8>>::empty()) =~= Seq::<Seq<u8>>::empty());
        r
    }

    /// The parts of both lists, data parts first: what the metadata of a file
    /// holds.
    pub fn merge(self, other: FileParts) -> (m: FileParts)
        ensures
            m.data() == self.data() + other.data(),
            m.hashes() == self.hashes() + other.hashes(),
    {
        let mut data = self.data;
        let mut hashes = self.hashes;
        let mut other_data = other.data;
        let mut other_hashes = other.hashes;
        let ghost d0 = data@;
        let ghost h0 = hashes@;
        let ghost d1 = other_data@;
        let ghost h1 = other_hashes@;
        data.append(&mut other_data);
        hashes.append(&mut other_hashes);
        assert(seqs(data@) =~= seqs(d0) + seqs(d1));
        assert(seqs(hashes@) =~= seqs(h0) + seqs(h1));
        FileParts { data, hashes }
    }

    /// The data parts and the recovery parts that the metadata of a file
    /// holds: the first half of the parts and of the digests, and the rest.
    pub fn split_metadata(parts: FileParts) -> (r: (FileParts, FileParts))
        ensures
            r.0.data() == parts.data().subrange(0, parts.data().len() as int / 2),
            r.1.data() == parts.data().subrange(parts.data().len() as int / 2, parts.data().len() as int),
            r.0.hashes() == parts.hashes().subrange(0, parts.hashes().len() as int / 2),
            r.1.hashes() == parts.hashes().subrange(
                parts.hashes().len() as int / 2,
                parts.hashes().len() as int,
            ),
    {
        let dl = parts.data.len() / 2;
        let hl = parts.hashes.len() / 2;
        let (data, recovery) = split_list(parts.data, dl);
        let (data_hashes, recovery_hashes) = split_list(parts.hashes, hl);
        (FileParts::new(data, data_hashes), FileParts::new(recovery, recovery_hashes))
    }

    /// Encrypts every part in place; each part is a whole number of 16-byte
    /// blocks.
    pub fn encrypt<E: Encryptor>(&mut self, encryptor: &E) -> (r: Result<(), EncryptionError>)
        requires
            forall|i: int| 0 <= i < old(self).data().len() ==> #[trigger] old(self).data()[i].len() + 16 <= usize::MAX,
            forall|i: int| 0 <= i < old(self).data().len() ==> #[trigger] old(self).data()[i].len() % 16 == 0,
        ensures
            r is Ok,
            final(self).data() == old(self).data().map_values(|d: Seq<u8>| encryptor.encrypted(d)),
            final(self).hashes() == old(self).hashes(),
    {
        let ghost d0 = self.data();
        let mut out: Vec<Vec<u8>> = Vec::new();
        let mut i: usize = 0;
        while i < self.data.len()
            invariant
                i <= self.data@.len(),
                d0 == seqs(self.data@),
                forall|u: int| 0 <= u < d0.len() ==> #[trigger] d0[u].len() + 16 <= usize::MAX,
                out@.len() == i,
                forall|u: int| 0 <= u < i ==> (#[trigger] out@[u])@ == encryptor.encrypted(d0[u]),
            decreases self.data@.len() - i,
        {
            assert(d0[i as int] == self.data@[i as int]@);
            out.push(encryptor.encrypt_chunk(self.data[i].as_slice()));
            i += 1;
        }
        self.data = out;
        assert(seqs(self.data@) =~= d0.map_values(|d: Seq<u8>| encryptor.encrypted(d)));
        Ok(())
    }

    /// Decrypts every part; every part is one that the decryptor takes.
    pub fn decrypt<E: Encryptor>(&mut self, decryptor: &E) -> (r: Result<(), DecryptionError>)
        requires
            forall|i: int|
                0 <= i < old(self).data().len() ==> #[trigger] decryptor.decrypted(
                    old(self).data()[i],
                ) is Some,
        ensures
            r is Ok,
            final(self).data().len() == old(self).data().len(),
            forall|i: int|
                0 <= i < old(self).data().len() ==> Some(#[trigger] final(self).data()[i])
                    == decryptor.decrypted(old(self).data()[i]),
            final(self).hashes() == old(self).hashes(),
            forall|i: int, p: Seq<u8>|
                #![trigger decryptor.encrypted(p), final(self).data()[i]]
                0 <= i < old(self).data().len() && decryptor.encrypted(p) == old(self).data()[i]
                    ==> final(self).data()[i] == decryptor.recovered(p),
    {
        let ghost d0 = self.data();
        let mut out: Vec<Vec<u8>> = Vec::new();
        let mut i: usize = 0;
        while i < self.data.len()
            invariant
                i <= self.data@.len(),
                d0 == seqs(self.data@),
                out@.len() == i,
                forall|u: int| 0 <= u < d0.len() ==> #[trigger] decryptor.decrypted(d0[u]) is Some,
                forall|u: int| 0 <= u < i ==> Some((#[trigger] out@[u])@) == decryptor.decrypted(d0[u]),
                forall|u: int, p: Seq<u8>|
                    #![trigger decryptor.encrypted(p), out@[u]]
                    0 <= u < i && decryptor.encrypted(p) == d0[u] ==> out@[u]@ == decryptor.recovered(p),
            decreases self.data@.len() - i,
        {
            assert(d0[i as int] == self.data@[i as int]@);
            match decryptor.decrypt_chunk(self.data[i].as_slice()) {
                Ok(v) => {
                    let ghost before = out@;
                    out.push(v);
                    assert forall|u: int, p: Seq<u8>|
                        #![trigger decryptor.encrypted(p), out@[u]]
                        0 <= u < i + 1 && decryptor.encrypted(p) == d0[u] implies out@[u]@
                            == decryptor.recovered(p) by {
                        if u < i {
                            assert(out@[u] == before[u]);
                        }
                    }
                },
                Err(e) => {
                    return Err(DecryptionError(e.0));
                },
            }
            i += 1;
        }
        self.data = out;
        assert forall|u: int| 0 <= u < d0.len() implies Some(#[trigger] seqs(self.data@)[u])
            == decryptor.decrypted(d0[u]) by {
            assert(seqs(self.data@)[u] == out@[u]@);
        }
        assert forall|u: int, p: Seq<u8>|
            #![trigger decryptor.encrypted(p), seqs(self.data@)[u]]
            0 <= u < d0.len() && decryptor.encrypted(p) == d0[u] implies seqs(self.data@)[u]
                == decryptor.recovered(p) by {
            assert(seqs(self.data@)[u] == out@[u]@);
        }
        Ok(())
    }

    /// The number of parts.
    pub fn len(&self) -> (n: usize)
        ensures
            n == self.data().len(),
    {
        self.data.len()
    }

    /// A copy of the parts.
    pub fn get_data_cloned(&self) -> (d: Vec<Vec<u8>>)
        ensures
            seqs(d@) == self.data(),
    {
        let d = copy_all(&self.data);
        assert(seqs(d@) =~= seqs(self.data@));
        d
    }

    /// A copy of the digests.
    pub fn get_hashes_cloned(&self) -> (h: Vec<Vec<u8>>)
        ensures
            seqs(h@) == self.hashes(),
    {
        let h = copy_all(&self.hashes);
        assert(seqs(h@) =~= seqs(self.hashes@));
        h
    }
}

/// Splits a list at an index.
fn split_list(list: Vec<Vec<u8>>, at: usize) -> (r: (Vec<Vec<u8>>, Vec<Vec<u8>>))
    requires
        at <= list@.len(),
    ensures
        seqs(r.0@) == seqs(list@).subrange(0, at as int),
        seqs(r.1@) == seqs(list@).subrange(at as int, list@.len() as int),
{
    let mut first = list;
    let ghost whole = first@;
    let second = first.split_off(at);
    assert(seqs(first@) =~= seqs(whole).subrange(0, at as int));
    assert(seqs(second@) =~= seqs(whole).subrange(at as int, whole.len() as int));
    (first, second)
}

/// What the metadata of two lists of parts holds, splitting gives back: the
/// two lists, when they have as many parts and as many digests.
pub proof fn lemma_split_after_merge(
    data: Seq<Seq<u8>>,
    hashes: Seq<Seq<u8>>,
    other_data: Seq<Seq<u8>>,
    other_hashes: Seq<Seq<u8>>,
)
    requires
        data.len() == other_data.len(),
        hashes.len() == other_hashes.len(),
    ensures
        (data + other_data).subrange(0, (data + other_data).len() as int / 2) == data,
        (data + other_data).subrange((data + other_data).len() as int / 2, (data + other_data).len() as int)
            == other_data,
        (hashes + other_hashes).subrange(0, (hashes + other_hashes).len() as int / 2) == hashes,
        (hashes + other_hashes).subrange(
            (hashes + other_hashes).len() as int / 2,
            (hashes + other_hashes).len() as int,
        ) == other_hashes,
{
    assert((data + other_data).subrange(0, (data + other_data).len() as int / 2) =~= data);
    assert((data + other_data).subrange(
        (data + other_data).len() as int / 2,
        (data + other_data).len() as int,
    ) =~= other_data);
    assert((hashes + other_hashes).subrange(0, (hashes + other_hashes).len() as int / 2) =~= hashes);
    assert((hashes + other_hashes).subrange(
        (hashes + other_hashes).len() as int / 2,
        (hashes + other_hashes).len() as int,
    ) =~= other_hashes);
}

// ---------------------------------------------------------------------------
// Digests of the parts of a file
// ---------------------------------------------------------------------------
/// Digests of the data parts and of the recovery parts of a file.
pub trait Hashes: Sized {
    /// The digests of the parts.
    fn new(data: &Vec<Vec<u8>>, recovery: &Vec<Vec<u8>>) -> Self;
}

/// The Streebog-256 digests of the parts of a file.
pub struct FileHashes {
    data: Vec<Vec<u8>>,
    recovery: Vec<Vec<u8>>,
}

impl FileHashes {
    /// The digests of the data parts.
    pub closed spec fn data(self) -> Seq<Seq<u8>> {
        seqs(self.data@)
    }

    /// The digests of the recovery parts.
    pub closed spec fn recovery(self) -> Seq<Seq<u8>> {
        seqs(self.recovery@)
    }

    /// The digests as they are read back from the metadata file.
    pub fn from_digests(data: Vec<Vec<u8>>, recovery: Vec<Vec<u8>>) -> (h: FileHashes)
        ensures
            h.data() == seqs(data@),
            h.recovery() == seqs(recovery@),
    {
        FileHashes { data, recovery }
    }

    /// The digests of the data parts and of the recovery parts, to be
    /// written to the metadata file.
    pub fn into_digests(self) -> (r: (Vec<Vec<u8>>, Vec<Vec<u8>>))
        ensures
            seqs(r.0@) == self.data(),
            seqs(r.1@) == self.recovery(),
    {
        (self.data, self.recovery)
    }
}

fn digests(parts: &Vec<Vec<u8>>) -> (d: Vec<Vec<u8>>)
    ensures
        seqs(d@) == seqs(parts@).map_values(|p: Seq<u8>| part_hash(p)),
{
    let mut d: Vec<Vec<u8>> = Vec::new();
    let mut i: usize = 0;
    while i < parts.len()
        invariant
            i <= parts@.len(),
            d@.len() == i,
            forall|u: int| 0 <= u < i ==> (#[trigger] d@[u])@ == part_hash(parts@[u]@),
        decreases parts@.len() - i,
    {
        d.push(calc_part_hash(parts[i].as_slice()));
        i += 1;
    }
    assert(seqs(d@) =~= seqs(parts@).map_values(|p: Seq<u8>| part_hash(p)));
    d
}

impl Hashes for FileHashes {
    fn new(data: &Vec<Vec<u8>>, recovery: &Vec<Vec<u8>>) -> (h: FileHashes)
        ensures
            h.data() == seqs(data@).map_values(|p: Seq<u8>| part_hash(p)),
            h.recovery() == seqs(recovery@).map_values(|p: Seq<u8>| part_hash(p)),
    {
        FileHashes { data: digests(data), recovery: digests(recovery) }
    }
}

// ---------------------------------------------------------------------------
// Sending and receiving a whole file
// ---------------------------------------------------------------------------
/// The shards to send for a file: its blocks and recovery blocks, as the
/// sharer splits it, each encrypted in output feedback mode, in that order.
/// The file is refused as the sharer refuses it, and the shards as the
/// encryptor refuses them: for a password that is not UTF-8 text.
pub fn encrypt_file_shards(
    sharer: &ReedSolomonSecretSharer,
    encryptor: &ofb::KuznechikEncryptor,
    content: &Vec<u8>,
    estimate: usize,
) -> (r: Result<Vec<Vec<u8>>, SplittingFileError>)
    requires
        encryptor.gamma().len() >= 32,
    ensures
        (r is Ok) == (1 <= crate::shards::shard_count(
            content@.len(),
            file_block_size(estimate as int) as nat,
        ) <= 128 && valid_utf8(encryptor.password())),
        r matches Ok(v) ==> v@.len() == sharing_blocks(content@, estimate as int).len() && forall|
            i: int,
        | 0 <= i < v@.len() ==> #[trigger] v@[i]@ == encryptor.encrypted(
            sharing_blocks(content@, estimate as int)[i],
        ),
{
    let blocks = match sharer.split_into_chunks(content, estimate) {
        Ok(b) => b,
        Err(e) => return Err(SplittingFileError(e.0)),
    };
    let ghost all = sharing_blocks(content@, estimate as int);
    proof {
        let bs = file_block_size(estimate as int);
        let n = crate::shards::shard_count(content@.len(), bs as nat);
        assert(views(blocks@) =~= views(blocks@).subrange(0, n as int) + views(blocks@).subrange(
            n as int,
            2 * n as int,
        ));
        assert(views(blocks@) == all);
        assert(blocks@.len() > 0);
    }
    let mut out: Vec<Vec<u8>> = Vec::new();
    let mut i: usize = 0;
    while i < blocks.len()
        invariant
            i <= blocks@.len(),
            blocks@.len() > 0,
            views(blocks@) == all,
            encryptor.gamma().len() >= 32,
            out@.len() == i,
            i > 0 ==> valid_utf8(encryptor.password()),
            forall|j: int| 0 <= j < i ==> #[trigger] out@[j]@ == encryptor.encrypted(all[j]),
        decreases blocks@.len() - i,
    {
        assert(blocks@[i as int]@ == all[i as int]);
        match encryptor.encrypt_chunk(blocks[i].as_slice()) {
            Ok(c) => out.push(c),
            Err(e) => return Err(SplittingFileError(e.0)),
        }
        i += 1;
    }
    Ok(out)
}

/// The length of the zero block that stands for a block that did not
/// arrive, after some blocks: the length of the first of them that
/// decrypts to a non-empty block, or zero.
pub open spec fn placeholder_len(e: &KuznechikEncryptor, blocks: Seq<Seq<u8>>) -> nat
    decreases blocks.len(),
{
    if blocks.len() == 0 {
        0
    } else if placeholder_len(e, blocks.drop_last()) == 0 && blocks.last().len() > 1 {
        e.decrypted(blocks.last())->Some_0.len()
    } else {
        placeholder_len(e, blocks.drop_last())
    }
}

/// What block `i` of those received stands for: a block of more than one
/// byte decrypted, a placeholder (at most one byte) a zero block of the
/// placeholder length.
pub open spec fn restored_block(e: &KuznechikEncryptor, received: Seq<Seq<u8>>, i: int) -> Seq<u8> {
    if received[i].len() > 1 {
        e.decrypted(received[i])->Some_0
    } else {
        zero_bytes(placeholder_len(e, received.subrange(0, i)))
    }
}

/// The blocks that the received ones stand for.
pub open spec fn restored_blocks(e: &KuznechikEncryptor, received: Seq<Seq<u8>>) -> Seq<Seq<u8>> {
    Seq::new(received.len(), |i: int| restored_block(e, received, i))
}

/// Whether every received block that is not a placeholder decrypts.
pub open spec fn all_decrypt(e: &KuznechikEncryptor, received: Seq<Seq<u8>>) -> bool {
    forall|i: int|
        0 <= i < received.len() && (#[trigger] received[i]).len() > 1 ==> e.decrypted(received[i]) is Some
}

/// The content of a file from the blocks received for it: its data blocks
/// followed by its recovery blocks, a block of at most one byte standing
/// for one that did not arrive. Every other block is decrypted, a
/// placeholder becomes a zero block of the length of the first block
/// decrypted before it, and the first half and the second half go to
/// recovery as data and recovery shards. A block that does not decrypt is
/// refused, and so are blocks that recovery refuses.
pub fn content_of_received(decryptor: &KuznechikEncryptor, received: Vec<Vec<u8>>) -> (r: Result<
    Vec<u8>,
    RestoringFileError,
>)
    ensures
        (r is Ok) == (all_decrypt(decryptor, seqs(received@)) && groups_uniform(
            restored_blocks(decryptor, seqs(received@)).subrange(0, received@.len() as int / 2),
            restored_blocks(decryptor, seqs(received@)).subrange(
                received@.len() as int / 2,
                received@.len() as int,
            ),
            0,
        )),
        r matches Ok(content) ==> content@ == trim_trailing_zeros(
            concat(restored_blocks(decryptor, seqs(received@)).subrange(0, received@.len() as int / 2)),
        ),
{
    let ghost blocks = seqs(received@);
    let ghost all = restored_blocks(decryptor, blocks);
    let mut out: Vec<Vec<u8>> = Vec::new();
    let mut chunk_len: usize = 0;
    let mut i: usize = 0;
    while i < received.len()
        invariant
            i <= received@.len(),
            blocks == seqs(received@),
            all == restored_blocks(decryptor, blocks),
            chunk_len == placeholder_len(decryptor, blocks.subrange(0, i as int)),
            out@.len() == i,
            forall|j: int| 0 <= j < i ==> (#[trigger] out@[j])@ == all[j],
            forall|j: int|
                0 <= j < i && (#[trigger] blocks[j]).len() > 1 ==> decryptor.decrypted(blocks[j]) is Some,
        decreases received@.len() - i,
    {
        let ghost prefix = blocks.subrange(0, i + 1);
        assert(prefix.drop_last() =~= blocks.subrange(0, i as int));
        assert(prefix.last() == blocks[i as int]);
        if received[i].len() > 1 {
            match decryptor.decrypt_chunk(received[i].as_slice()) {
                Ok(p) => {
                    if chunk_len == 0 {
                        chunk_len = p.len();
                    }
                    out.push(p);
                },
                Err(_) => {
                    assert(!all_decrypt(decryptor, blocks));
                    return Err(RestoringFileError(String::from_str(UNDECRYPTABLE_BLOCK_MESSAGE)));
                },
            }
        } else {
            out.push(zeros(chunk_len));
        }
        i += 1;
    }
    assert(blocks.subrange(0, i as int) =~= blocks);
    let n = received.len() / 2;
    let rec = out.split_off(n);
    assert(views(out@) =~= all.subrange(0, n as int));
    assert(views(rec@) =~= all.subrange(n as int, received@.len() as int));
    match recover(out, rec) {
        Ok(content) => Ok(content),
        Err(e) => Err(RestoringFileError(e.0)),
    }
}

/// The message of the error for a received block that does not decrypt.
pub const UNDECRYPTABLE_BLOCK_MESSAGE: &'static str = "Cannot decrypt a received block";

// ---------------------------------------------------------------------------
// Errors
// ---------------------------------------------------------------------------
/// The data parts and the recovery parts are not as many.
#[derive(Debug)]
pub struct LengthMismatchError(pub String);

/// A file could not be split into parts.
#[derive(Debug)]
pub struct SplittingFileError(pub String);

/// The parts could not be encrypted.
#[derive(Debug)]
pub struct EncryptionError(pub String);

/// The parts could not be handed to the domain.
#[derive(Debug)]
pub struct SharingChunksError(pub String);

/// The metadata could not be saved.
#[derive(Debug)]
pub struct SavingMetadataError(pub String);

/// The metadata could not be loaded.
#[derive(Debug)]
pub struct LoadingMetadataError(pub String);

/// The parts could not be received.
#[derive(Debug)]
pub struct ReceivingChunksError(pub String);

/// The parts could not be decrypted.
#[derive(Debug)]
pub struct DecryptionError(pub String);

/// The file could not be restored.
#[derive(Debug)]
pub struct RestoringFileError(pub String);

} // verus!
