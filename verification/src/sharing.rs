//! Reed-Solomon sharing of a whole file in one group: the file is cut into
//! `n` blocks of one size, which are coded into `n` recovery blocks, and the
//! `n` recovery blocks alone give the file back. Recovery drops every zero
//! byte, the padding of the last block with it.
use vstd::prelude::*;

use crate::bytes::{copy_bytes, zeros};
use crate::crypto::Encryptor;
use crate::shards::{
    concat, cut_into_shards, data_shards, encode_parity, lemma_concat_shards, padded_secret,
    present_views, reconstruct_data, reed_solomon_parity, shard_count, uniform, views,
};

verus! {

/// The smallest block size.
pub const MIN_BLOCK_SIZE: usize = 64;

/// The largest block size: 2 GiB.
pub const MAX_BLOCK_SIZE: usize = 2147483648;

/// Block sizes are multiples of this.
pub const ALIGNMENT: usize = 64;

/// The block size chosen for a size estimate: the estimate held between
/// [`MIN_BLOCK_SIZE`] and [`MAX_BLOCK_SIZE`], then rounded up to a multiple
/// of [`ALIGNMENT`].
pub open spec fn file_block_size(estimate: int) -> int {
    let c = if estimate < 64 {
        64
    } else if estimate > 2147483648 {
        2147483648
    } else {
        estimate
    };
    ((c + 63) / 64) * 64
}

/// A byte string without its zero bytes.
pub open spec fn without_zeros(s: Seq<u8>) -> Seq<u8>
    decreases s.len(),
{
    if s.len() == 0 {
        Seq::empty()
    } else if s.last() == 0 {
        without_zeros(s.drop_last())
    } else {
        without_zeros(s.drop_last()).push(s.last())
    }
}

/// Holds a block size estimate between [`MIN_BLOCK_SIZE`] and
/// [`MAX_BLOCK_SIZE`] and rounds it up to a multiple of [`ALIGNMENT`].
pub fn calc_block_size(estimate: usize) -> (bs: usize)
    ensures
        bs == file_block_size(estimate as int),
        MIN_BLOCK_SIZE <= bs <= MAX_BLOCK_SIZE,
        bs % ALIGNMENT == 0,
        estimate < MIN_BLOCK_SIZE ==> bs == MIN_BLOCK_SIZE,
        MIN_BLOCK_SIZE <= estimate <= MAX_BLOCK_SIZE ==> estimate <= bs < estimate + ALIGNMENT,
        estimate > MAX_BLOCK_SIZE ==> bs == MAX_BLOCK_SIZE,
{
    let c = if estimate < MIN_BLOCK_SIZE {
        MIN_BLOCK_SIZE
    } else if estimate > MAX_BLOCK_SIZE {
        MAX_BLOCK_SIZE
    } else {
        estimate
    };
    let bs = ((c + ALIGNMENT - 1) / ALIGNMENT) * ALIGNMENT;
    assert(64 <= bs <= 2147483648 && bs % 64 == 0 && c <= bs < c + 64) by (nonlinear_arith)
        requires
            64 <= c <= 2147483648,
            bs == ((c + 63) / 64) * 64,
    ;
    bs
}

/// The block size for an estimate is the smallest multiple of
/// [`ALIGNMENT`] that is at least the estimate held between
/// [`MIN_BLOCK_SIZE`] and [`MAX_BLOCK_SIZE`]: a multiple of 64, no smaller
/// than the estimate and less than 64 above it; an estimate below the least
/// size gives the least size and one above the largest gives the largest.
/// A larger estimate never gives a smaller block size.
pub proof fn lemma_file_block_size(estimate: int, other: int)
    ensures
        file_block_size(estimate) % 64 == 0,
        64 <= file_block_size(estimate) <= 2147483648,
        estimate < 64 ==> file_block_size(estimate) == 64,
        64 <= estimate <= 2147483648 ==> estimate <= file_block_size(estimate) < estimate + 64,
        estimate > 2147483648 ==> file_block_size(estimate) == 2147483648,
        estimate <= other ==> file_block_size(estimate) <= file_block_size(other),
{
    let c = if estimate < 64 {
        64
    } else if estimate > 2147483648 {
        2147483648
    } else {
        estimate
    };
    let d = if other < 64 {
        64
    } else if other > 2147483648 {
        2147483648
    } else {
        other
    };
    assert(((c + 63) / 64) * 64 % 64 == 0 && c <= ((c + 63) / 64) * 64 < c + 64) by (nonlinear_arith)
        requires
            64 <= c,
    ;
    assert(c <= d ==> ((c + 63) / 64) * 64 <= ((d + 63) / 64) * 64) by (nonlinear_arith)
        requires
            64 <= c,
    ;
    assert(((c + 63) / 64) * 64 <= 2147483648) by (nonlinear_arith)
        requires
            c <= 2147483648,
    ;
}

/// The number of blocks of a size that hold a file.
pub fn calc_amount_of_blocks(file_size: usize, block_size: usize) -> (n: usize)
    requires
        block_size > 0,
        file_size + block_size - 1 <= usize::MAX,
    ensures
        n == shard_count(file_size as nat, block_size as nat),
{
    (file_size + (block_size - 1)) / block_size
}

/// The Reed-Solomon sharer of whole files.
pub struct ReedSolomonSecretSharer;

impl ReedSolomonSecretSharer {
    /// The sharer.
    pub fn new() -> (s: ReedSolomonSecretSharer) {
        ReedSolomonSecretSharer
    }

    /// Splits a file into its `n` blocks followed by their `n` recovery
    /// blocks. The block size is the estimate held between the bounds and
    /// aligned; the blocks are the file cut into pieces of that size, the
    /// last one padded with zero bytes. Reed-Solomon coding in GF(2^8)
    /// takes 1 to 128 blocks: an empty file, or one of more blocks, is
    /// refused.
    pub fn split_into_chunks(&self, secret: &Vec<u8>, estimate: usize) -> (r: Result<
        Vec<Vec<u8>>,
        DataSplittingError,
    >)
        ensures
            (r is Ok) == (1 <= shard_count(secret@.len(), file_block_size(estimate as int) as nat)
                <= 128),
            r matches Ok(blocks) ==> {
                let bs = file_block_size(estimate as int) as nat;
                let n = shard_count(secret@.len(), bs);
                &&& blocks@.len() == 2 * n
                &&& views(blocks@).subrange(0, n as int) == data_shards(secret@, bs)
                &&& views(blocks@).subrange(n as int, 2 * n as int) == reed_solomon_parity(
                    data_shards(secret@, bs),
                )
                &&& forall|j: int| 0 <= j < blocks@.len() ==> #[trigger] blocks@[j]@.len() == bs
            },
    {
        let bs = calc_block_size(estimate);
        let mut data = cut_into_shards(secret, bs);
        let n = data.len();
        let ghost d0 = views(data@);
        proof {
            assert(d0.len() == n);
            assert(n > 0 ==> data@[0]@.len() == bs);
        }
        let mut parity: Vec<Vec<u8>> = Vec::new();
        let mut i: usize = 0;
        while i < n
            invariant
                i <= n,
                n == data@.len(),
                parity@.len() == i,
                forall|j: int| 0 <= j < i ==> #[trigger] parity@[j]@.len() == bs,
            decreases n - i,
        {
            parity.push(zeros(bs));
            i += 1;
        }
        match encode_parity(&data, &mut parity) {
            Ok(()) => {},
            Err(e) => {
                return Err(DataSplittingError(e));
            },
        }
        let ghost p0 = views(parity@);
        data.append(&mut parity);
        proof {
            assert(views(data@).subrange(0, n as int) =~= d0);
            assert(views(data@).subrange(n as int, 2 * n) =~= p0);
        }
        Ok(data)
    }

    /// Recovers a file from the `n` recovery blocks of its `n` blocks: the
    /// blocks are reconstructed and joined, and every zero byte is dropped.
    /// The recovery blocks are the only ones of those data blocks: whichever
    /// blocks of their length have them as recovery blocks are the ones the
    /// result is made of.
    pub fn recover_from_chunks(&self, chunks: Vec<Vec<u8>>) -> (r: Result<Vec<u8>, DataRecoveringError>)
        requires
            1 <= chunks@.len() <= 128,
            uniform(views(chunks@)),
        ensures
            r is Ok,
            forall|d: Seq<Seq<u8>>|
                #![trigger reed_solomon_parity(d)]
                d.len() == chunks@.len() && (forall|j: int|
                    0 <= j < d.len() ==> #[trigger] d[j].len() == chunks@[0]@.len())
                    && reed_solomon_parity(d) == views(chunks@) ==> (r matches Ok(s) && s@
                    == without_zeros(concat(d))),
    {
        let m = chunks.len();
        let mut full: Vec<Option<Vec<u8>>> = Vec::new();
        let mut i: usize = 0;
        while i < m
            invariant
                i <= m,
                full@.len() == i,
                forall|j: int| 0 <= j < i ==> #[trigger] full@[j] is None,
            decreases m - i,
        {
            full.push(None);
            i += 1;
        }
        let ghost c0 = views(chunks@);
        let mut i: usize = 0;
        while i < m
            invariant
                i <= m,
                m == chunks@.len(),
                c0 == views(chunks@),
                full@.len() == m + i,
                forall|j: int| 0 <= j < m ==> #[trigger] full@[j] is None,
                forall|j: int| m <= j < m + i ==> #[trigger] full@[j] is Some && full@[j]->Some_0@
                    == c0[j - m],
            decreases m - i,
        {
            let c = copy_bytes(chunks[i].as_slice());
            assert(c@ == c0[i as int]);
            full.push(Some(c));
            i += 1;
        }
        proof {
            assert(present_views(full@, m as int) =~= c0);
        }
        let ghost f0 = full@;
        match reconstruct_data(&mut full, m) {
            Ok(()) => {},
            Err(e) => {
                assert(false);
                return Err(DataRecoveringError(e));
            },
        }
        let mut secret: Vec<u8> = Vec::new();
        let mut i: usize = 0;
        while i < m
            invariant
                i <= m,
                full@.len() == 2 * m,
                forall|j: int| 0 <= j < full@.len() ==> #[trigger] full@[j] is Some,
                secret@ == without_zeros(concat(present_views(full@, 0).subrange(0, i as int))),
            decreases m - i,
        {
            let block = match &full[i] {
                Some(b) => b,
                None => {
                    assert(false);
                    return Err(DataRecoveringError(String::new()));
                },
            };
            let ghost raw = concat(present_views(full@, 0).subrange(0, i as int));
            assert(raw + block@.subrange(0, 0) =~= raw);
            let mut t: usize = 0;
            while t < block.len()
                invariant
                    t <= block@.len(),
                    secret@ == without_zeros(raw + block@.subrange(0, t as int)),
                decreases block@.len() - t,
            {
                if block[t] != 0 {
                    secret.push(block[t]);
                }
                proof {
                    let next = raw + block@.subrange(0, t + 1);
                    assert(next.drop_last() =~= raw + block@.subrange(0, t as int));
                    assert(next.last() == block@[t as int]);
                }
                t += 1;
            }
            proof {
                let views0 = present_views(full@, 0);
                assert(views0[i as int] == block@);
                assert(views0.subrange(0, i + 1).drop_last() =~= views0.subrange(0, i as int));
                assert(block@.subrange(0, block@.len() as int) =~= block@);
            }
            i += 1;
        }
        Ok(secret)
    }
}

// ---------------------------------------------------------------------------
// Encrypted blocks of a file
// ---------------------------------------------------------------------------
/// The blocks a file is split into for a block size estimate: its data
/// blocks followed by their recovery blocks.
pub open spec fn sharing_blocks(secret: Seq<u8>, estimate: int) -> Seq<Seq<u8>> {
    data_shards(secret, file_block_size(estimate) as nat) + reed_solomon_parity(
        data_shards(secret, file_block_size(estimate) as nat),
    )
}

/// Prepares a file for sending: splits it into its blocks and recovery
/// blocks, and encrypts each of them with a shard encryptor, in that order. The file is refused as
/// `split_into_chunks` refuses it.
pub fn prepare_shards<E: Encryptor>(e: &E, secret: &Vec<u8>, estimate: usize) -> (r: Result<
    Vec<Vec<u8>>,
    DataSplittingError,
>)
    ensures
        (r is Ok) == (1 <= shard_count(secret@.len(), file_block_size(estimate as int) as nat)
            <= 128),
        r matches Ok(v) ==> v@.len() == sharing_blocks(secret@, estimate as int).len() && forall|
            i: int,
        | 0 <= i < v@.len() ==> #[trigger] v@[i]@ == e.encrypted(
            sharing_blocks(secret@, estimate as int)[i],
        ),
{
    let sharer = ReedSolomonSecretSharer::new();
    let blocks = match sharer.split_into_chunks(secret, estimate) {
        Ok(b) => b,
        Err(err) => return Err(err),
    };
    let ghost all = sharing_blocks(secret@, estimate as int);
    let ghost bs = file_block_size(estimate as int);
    proof {
        let n = shard_count(secret@.len(), bs as nat);
        assert(views(blocks@) =~= views(blocks@).subrange(0, n as int) + views(blocks@).subrange(
            n as int,
            2 * n as int,
        ));
        assert(views(blocks@) == all);
        assert(bs <= 2147483648) by (nonlinear_arith)
            requires
                bs == file_block_size(estimate as int),
        ;
    }
    let mut out: Vec<Vec<u8>> = Vec::new();
    let mut i: usize = 0;
    while i < blocks.len()
        invariant
            i <= blocks@.len(),
            views(blocks@) == all,
            bs <= 2147483648,
            forall|j: int| 0 <= j < blocks@.len() ==> #[trigger] blocks@[j]@.len() == bs,
            out@.len() == i,
            forall|j: int| 0 <= j < i ==> #[trigger] out@[j]@ == e.encrypted(all[j]),
        decreases blocks@.len() - i,
    {
        assert(blocks@[i as int]@ == all[i as int]);
        let c = e.encrypt_chunk(blocks[i].as_slice());
        out.push(c);
        i += 1;
    }
    Ok(out)
}

/// Dropping the zero bytes of two joined strings is joining the strings
/// without their zero bytes.
proof fn lemma_without_zeros_concat(a: Seq<u8>, b: Seq<u8>)
    ensures
        without_zeros(a + b) == without_zeros(a) + without_zeros(b),
    decreases b.len(),
{
    if b.len() == 0 {
        assert(a + b =~= a);
        assert(without_zeros(a) + without_zeros(b) =~= without_zeros(a));
    } else {
        lemma_without_zeros_concat(a, b.drop_last());
        assert((a + b).drop_last() =~= a + b.drop_last());
        assert((a + b).last() == b.last());
        if b.last() == 0 {
        } else {
            assert(without_zeros(a) + without_zeros(b.drop_last()).push(b.last()) =~= (
            without_zeros(a) + without_zeros(b.drop_last())).push(b.last()));
        }
    }
}

/// Zero bytes only: nothing is left of them.
proof fn lemma_without_zeros_of_zeros(n: nat)
    ensures
        without_zeros(Seq::new(n, |i: int| 0u8)) == Seq::<u8>::empty(),
    decreases n,
{
    if n > 0 {
        lemma_without_zeros_of_zeros((n - 1) as nat);
        assert(Seq::new(n, |i: int| 0u8).drop_last() =~= Seq::new((n - 1) as nat, |i: int| 0u8));
    }
}

/// What a file is split into, its recovery blocks give back without its
/// zero bytes: the blocks of a file have the block size, joined they are
/// the file padded with zero bytes, and recovery, which drops the zero
/// bytes, gives the file without its zero bytes.
pub proof fn lemma_recover_after_split(secret: Seq<u8>, estimate: int)
    requires
        secret.len() > 0,
    ensures
        forall|j: int|
            0 <= j < data_shards(secret, file_block_size(estimate) as nat).len() ==> (
            #[trigger] data_shards(secret, file_block_size(estimate) as nat)[j]).len()
                == file_block_size(estimate),
        without_zeros(concat(data_shards(secret, file_block_size(estimate) as nat)))
            == without_zeros(secret),
{
    let bs = file_block_size(estimate) as nat;
    assert(64 <= bs) by (nonlinear_arith)
        requires
            bs == file_block_size(estimate),
    ;
    let c = shard_count(secret.len(), bs);
    let d = data_shards(secret, bs);
    assert(c * bs >= secret.len() && c * bs < secret.len() + bs) by (nonlinear_arith)
        requires
            bs > 0,
            c == (secret.len() + bs - 1) / (bs as int),
    ;
    lemma_concat_shards(secret, bs, c);
    assert(d.subrange(0, c as int) =~= d);
    let padded = padded_secret(secret, bs);
    assert(padded.len() == c * bs);
    assert(bs * c == c * bs) by (nonlinear_arith);
    assert(padded.subrange(0, (bs * c) as int) =~= padded);
    assert forall|j: int| 0 <= j < d.len() implies (#[trigger] d[j]).len() == bs by {
        assert(0 <= bs * j && bs * j + bs <= c * bs) by (nonlinear_arith)
            requires
                0 <= j < c,
                bs > 0,
        ;
        assert(d[j] == padded.subrange(bs * j, bs * j + bs));
    }
    let pad = Seq::new((c * bs - secret.len()) as nat, |i: int| 0u8);
    assert(padded =~= secret + pad);
    lemma_without_zeros_concat(secret, pad);
    lemma_without_zeros_of_zeros((c * bs - secret.len()) as nat);
    assert(without_zeros(secret) + Seq::<u8>::empty() =~= without_zeros(secret));
}

/// A file could not be split.
#[derive(Debug)]
pub struct DataSplittingError(pub String);

/// A file could not be recovered.
#[derive(Debug)]
pub struct DataRecoveringError(pub String);

} // verus!
