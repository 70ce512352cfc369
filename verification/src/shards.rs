//! Reed-Solomon splitting of a file into data shards and recovery shards,
//! and the way back.
//!
//! The file is cut into shards of one block size (the last one padded with
//! zero bytes); the shards are coded in groups of at most
//! [`MAX_AMOUNT_OF_BLOCKS`], each group giving as many recovery shards as it
//! has data shards.
use reed_solomon_erasure::{galois_8, ReedSolomon};
use vstd::prelude::*;

use crate::bytes::{copy_bytes, zeros};

verus! {

/// The smallest block size.
pub const MIN_BLOCK_SIZE: usize = 64;

/// The largest block size: a datagram carries at most 65535 bytes, less the
/// digest and the headers.
pub const MAX_BLOCK_SIZE: usize = 65216;

/// Block sizes are multiples of this.
pub const ALIGNMENT: usize = 64;

/// The largest number of data shards coded together.
pub const MAX_AMOUNT_OF_BLOCKS: usize = 128;

// ---------------------------------------------------------------------------
// Specification
// ---------------------------------------------------------------------------
/// The views of a list of byte vectors.
pub open spec fn views(v: Seq<Vec<u8>>) -> Seq<Seq<u8>> {
    Seq::new(v.len(), |i: int| v[i]@)
}

/// The byte strings of a list, one after the other.
pub open spec fn concat(s: Seq<Seq<u8>>) -> Seq<u8>
    decreases s.len(),
{
    if s.len() == 0 {
        Seq::empty()
    } else {
        concat(s.drop_last()) + s.last()
    }
}

/// The block size chosen for a size estimate: the estimate held between
/// [`MIN_BLOCK_SIZE`] and [`MAX_BLOCK_SIZE`], then rounded up to a multiple
/// of [`ALIGNMENT`].
pub open spec fn block_size_for(estimate: int) -> int {
    let c = if estimate < 64 {
        64
    } else if estimate > 65216 {
        65216
    } else {
        estimate
    };
    ((c + 63) / 64) * 64
}

/// The number of shards of size `bs` that hold `len` bytes.
pub open spec fn shard_count(len: nat, bs: nat) -> nat {
    ((len + bs - 1) / (bs as int)) as nat
}

/// The secret followed by zero bytes up to a whole number of shards.
pub open spec fn padded_secret(secret: Seq<u8>, bs: nat) -> Seq<u8> {
    secret + Seq::new(
        (shard_count(secret.len(), bs) * bs - secret.len()) as nat,
        |i: int| 0u8,
    )
}

/// The data shards of a secret: consecutive pieces of `bs` bytes of the
/// padded secret.
pub open spec fn data_shards(secret: Seq<u8>, bs: nat) -> Seq<Seq<u8>> {
    Seq::new(
        shard_count(secret.len(), bs),
        |i: int| padded_secret(secret, bs).subrange(bs * i, bs * i + bs),
    )
}

/// The recovery shards that Reed-Solomon coding gives for a group of data
/// shards (as many as there are data shards).
pub uninterp spec fn reed_solomon_parity(data: Seq<Seq<u8>>) -> Seq<Seq<u8>>;

/// The recovery shards of all groups from shard `i` on.
pub open spec fn parity_from(data: Seq<Seq<u8>>, i: int) -> Seq<Seq<u8>>
    decreases data.len() - i,
{
    if i < 0 || i >= data.len() {
        Seq::empty()
    } else {
        let k = if data.len() - i < 128 {
            data.len() - i
        } else {
            128
        };
        reed_solomon_parity(data.subrange(i, i + k)) + parity_from(data, i + k)
    }
}

/// All byte strings of the list have one non-zero length.
pub open spec fn uniform(s: Seq<Seq<u8>>) -> bool {
    s.len() > 0 ==> (s[0].len() > 0 && forall|j: int| 0 <= j < s.len() ==> #[trigger] s[j].len()
        == s[0].len())
}

/// Every group, from shard `i` on, of data shards and the recovery shards at
/// the same places has one non-zero shard length.
pub open spec fn groups_uniform(data: Seq<Seq<u8>>, recv: Seq<Seq<u8>>, i: int) -> bool
    decreases data.len() - i,
{
    if i < 0 || i >= data.len() {
        true
    } else {
        let k = if data.len() - i < 128 {
            data.len() - i
        } else {
            128
        };
        uniform(data.subrange(i, i + k) + recv.subrange(i, i + k)) && groups_uniform(
            data,
            recv,
            i + k,
        )
    }
}

// ---------------------------------------------------------------------------
// Trusted calls into reed-solomon-erasure
// ---------------------------------------------------------------------------
/// Calls `ReedSolomon::<galois_8::Field>::new(k, k)` for the `k` data
/// shards and `encode_sep`, whose `k` recovery shards overwrite `parity`.
/// The crate refuses no data shard and more than 128 of them (`k + k` may
/// not pass the 256 shards of GF(2^8)); the shards here are of one non-zero
/// length, which passes its other checks. Where it refuses, `parity` is not
/// touched. The text of an error is the crate's message.
#[verifier::external_body]
pub(crate) fn encode_parity(data: &Vec<Vec<u8>>, parity: &mut Vec<Vec<u8>>) -> (r: Result<(), String>)
    requires
        old(parity)@.len() == data@.len(),
        data@.len() > 0 ==> data@[0]@.len() > 0,
        forall|j: int| 0 <= j < data@.len() ==> #[trigger] data@[j]@.len() == data@[0]@.len(),
        forall|j: int| 0 <= j < data@.len() ==> #[trigger] old(parity)@[j]@.len() == data@[0]@.len(),
    ensures
        (r is Ok) == (1 <= data@.len() <= 128),
        r is Ok ==> views(final(parity)@) == reed_solomon_parity(views(data@)),
        r is Err ==> final(parity)@ == old(parity)@,
        final(parity)@.len() == data@.len(),
        forall|j: int|
            0 <= j < data@.len() ==> #[trigger] final(parity)@[j]@.len() == data@[0]@.len(),
{
    let coder: ReedSolomon<galois_8::Field> = ReedSolomon::new(data.len(), data.len()).map_err(
        |e| e.to_string(),
    )?;
    coder.encode_sep(data.as_slice(), parity.as_mut_slice()).map_err(|e| e.to_string())
}

/// The data shards of `k` data shards and `k` recovery shards that are all
/// present.
pub open spec fn all_present(shards: Seq<Option<Vec<u8>>>) -> bool {
    forall|j: int| 0 <= j < shards.len() ==> #[trigger] shards[j] is Some
}

/// The data shards are all missing and the recovery shards all present.
pub open spec fn only_recovery_present(shards: Seq<Option<Vec<u8>>>, k: int) -> bool {
    &&& forall|j: int| 0 <= j < k ==> #[trigger] shards[j] is None
    &&& forall|j: int| k <= j < shards.len() ==> #[trigger] shards[j] is Some
}

/// The contents of the shards of a list from `start` on, where all of them
/// are present.
pub open spec fn present_views(shards: Seq<Option<Vec<u8>>>, start: int) -> Seq<Seq<u8>> {
    Seq::new((shards.len() - start) as nat, |j: int| shards[start + j]->Some_0@)
}

/// Calls `ReedSolomon::<galois_8::Field>::new(k, k)` and `reconstruct_data`
/// on `2 * k` shards, the first `k` of them data shards. The crate refuses
/// present shards that are empty or not of one length. When every shard is
/// present it returns at once and touches nothing. When the data shards are
/// all missing, the `k` recovery shards suffice (Reed-Solomon coding is
/// maximum distance separable): it fills in the data shards, of the length
/// of the recovery shards, and they are the only data shards of that length
/// whose recovery shards are the present ones. The text of an error is the
/// crate's message.
#[verifier::external_body]
pub(crate) fn reconstruct_data(shards: &mut Vec<Option<Vec<u8>>>, k: usize) -> (r: Result<(), String>)
    requires
        1 <= k <= 128,
        old(shards)@.len() == 2 * k,
        all_present(old(shards)@) || only_recovery_present(old(shards)@, k as int),
    ensures
        all_present(old(shards)@) ==> final(shards)@ == old(shards)@ && (r is Ok) == uniform(
            present_views(old(shards)@, 0),
        ),
        only_recovery_present(old(shards)@, k as int) ==> (r is Ok) == uniform(
            present_views(old(shards)@, k as int),
        ),
        only_recovery_present(old(shards)@, k as int) && r is Ok ==> {
            &&& final(shards)@.len() == 2 * k
            &&& all_present(final(shards)@)
            &&& present_views(final(shards)@, k as int) == present_views(old(shards)@, k as int)
            &&& forall|j: int|
                0 <= j < k ==> (#[trigger] final(shards)@[j])->Some_0@.len() == old(
                    shards,
                )@[k as int]->Some_0@.len()
            &&& forall|d: Seq<Seq<u8>>|
                #![trigger reed_solomon_parity(d)]
                d.len() == k && (forall|j: int|
                    0 <= j < k ==> #[trigger] d[j].len() == old(shards)@[k as int]->Some_0@.len())
                    && reed_solomon_parity(d) == present_views(old(shards)@, k as int)
                    ==> present_views(final(shards)@, 0).subrange(0, k as int) == d
        },
{
    let coder: ReedSolomon<galois_8::Field> = ReedSolomon::new(k, k).map_err(|e| e.to_string())?;
    coder.reconstruct_data(shards.as_mut_slice()).map_err(|e| e.to_string())
}

// ---------------------------------------------------------------------------
// Block size
// ---------------------------------------------------------------------------
/// Holds a block size estimate between [`MIN_BLOCK_SIZE`] and
/// [`MAX_BLOCK_SIZE`] and rounds it up to a multiple of [`ALIGNMENT`].
pub fn align_block_size(estimate: usize) -> (bs: usize)
    ensures
        bs == block_size_for(estimate as int),
        MIN_BLOCK_SIZE <= bs <= MAX_BLOCK_SIZE,
        bs % ALIGNMENT == 0,
        estimate < MIN_BLOCK_SIZE ==> bs == MIN_BLOCK_SIZE,
        MIN_BLOCK_SIZE <= estimate <= MAX_BLOCK_SIZE ==> estimate <= bs < estimate + ALIGNMENT,
        estimate > MAX_BLOCK_SIZE ==> bs == MAX_BLOCK_SIZE,
{
    let c = if estimate < MIN_BLOCK_SIZE {
        MIN_BLOCK_SIZE
    } else if estimate > MAX_BLOCK_SIZE {
        MAX_BLOCK_SIZE
    } else {
        estimate
    };
    let bs = ((c + ALIGNMENT - 1) / ALIGNMENT) * ALIGNMENT;
    assert(64 <= bs <= 65216 && bs % 64 == 0 && c <= bs < c + 64) by (nonlinear_arith)
        requires
            64 <= c <= 65216,
            bs == ((c + 63) / 64) * 64,
    ;
    bs
}

/// The block size for an estimate is the smallest multiple of
/// [`ALIGNMENT`] that is at least the estimate held between
/// [`MIN_BLOCK_SIZE`] and [`MAX_BLOCK_SIZE`]: a multiple of 64, no smaller
/// than the estimate and less than 64 above it; an estimate below the least
/// size gives the least size and one above the largest gives the largest.
/// A larger estimate never gives a smaller block size.
pub proof fn lemma_block_size_for(estimate: int, other: int)
    ensures
        block_size_for(estimate) % 64 == 0,
        64 <= block_size_for(estimate) <= 65216,
        estimate < 64 ==> block_size_for(estimate) == 64,
        64 <= estimate <= 65216 ==> estimate <= block_size_for(estimate) < estimate + 64,
        estimate > 65216 ==> block_size_for(estimate) == 65216,
        estimate <= other ==> block_size_for(estimate) <= block_size_for(other),
{
    let c = if estimate < 64 {
        64
    } else if estimate > 65216 {
        65216
    } else {
        estimate
    };
    let d = if other < 64 {
        64
    } else if other > 65216 {
        65216
    } else {
        other
    };
    assert(((c + 63) / 64) * 64 % 64 == 0 && c <= ((c + 63) / 64) * 64 < c + 64) by (nonlinear_arith)
        requires
            64 <= c,
    ;
    assert(c <= d ==> ((c + 63) / 64) * 64 <= ((d + 63) / 64) * 64) by (nonlinear_arith)
        requires
            64 <= c,
    ;
    assert(((c + 63) / 64) * 64 <= 65216) by (nonlinear_arith)
        requires
            c <= 65216,
    ;
}

// ---------------------------------------------------------------------------
// Arithmetic facts
// ---------------------------------------------------------------------------
proof fn lemma_mul_succ(bs: int, i: int)
    ensures
        bs * (i + 1) == bs * i + bs,
{
    assert(bs * (i + 1) == bs * i + bs) by (nonlinear_arith);
}

pub(crate) proof fn lemma_shard_count(len: int, bs: int)
    requires
        bs > 0,
        len > 0,
    ensures
        shard_count(len as nat, bs as nat) > 0,
        bs * (shard_count(len as nat, bs as nat) - 1) < len <= bs * shard_count(len as nat, bs as nat),
        shard_count(len as nat, bs as nat) == len / bs + (if len % bs == 0 {
            0int
        } else {
            1int
        }),
        bs > 1 ==> len / bs < len,
{
    let q = len / bs;
    let r = len % bs;
    vstd::arithmetic::div_mod::lemma_fundamental_div_mod(len, bs);
    vstd::arithmetic::div_mod::lemma_mod_bound(len, bs);
    assert(q >= 0 && (bs > 1 ==> q < len)) by (nonlinear_arith)
        requires
            len == bs * q + r,
            0 <= r < bs,
            len > 0,
            bs > 0,
    ;
    if r == 0 {
        assert(len + bs - 1 == q * bs + (bs - 1)) by (nonlinear_arith)
            requires
                len == bs * q + r,
                r == 0,
        ;
        vstd::arithmetic::div_mod::lemma_fundamental_div_mod_converse(len + bs - 1, bs, q, bs - 1);
        assert(q > 0 && bs * (q - 1) < len <= bs * q) by (nonlinear_arith)
            requires
                len == bs * q,
                len > 0,
                bs > 0,
        ;
    } else {
        assert(len + bs - 1 == (q + 1) * bs + (r - 1)) by (nonlinear_arith)
            requires
                len == bs * q + r,
        ;
        vstd::arithmetic::div_mod::lemma_fundamental_div_mod_converse(
            len + bs - 1,
            bs,
            q + 1,
            r - 1,
        );
        assert(bs * q < len <= bs * (q + 1)) by (nonlinear_arith)
            requires
                len == bs * q + r,
                0 < r < bs,
        ;
    }
}

// ---------------------------------------------------------------------------
// Splitting
// ---------------------------------------------------------------------------
/// The piece of `secret` that starts at `start`, of `bs` bytes, completed
/// with zero bytes where the secret ends first.
fn shard_at(secret: &Vec<u8>, start: usize, bs: usize) -> (shard: Vec<u8>)
    requires
        start < secret@.len(),
    ensures
        shard@.len() == bs,
        forall|t: int|
            0 <= t < bs ==> #[trigger] shard@[t] == if start + t < secret@.len() {
                secret@[start + t]
            } else {
                0u8
            },
{
    let len = secret.len();
    let mut shard: Vec<u8> = Vec::new();
    let mut t: usize = 0;
    while t < bs
        invariant
            t <= bs,
            start < len,
            len == secret@.len(),
            shard@.len() == t,
            forall|u: int|
                0 <= u < t ==> #[trigger] shard@[u] == if start + u < secret@.len() {
                    secret@[start + u]
                } else {
                    0u8
                },
        decreases bs - t,
    {
        if t < len - start {
            shard.push(secret[start + t]);
        } else {
            shard.push(0u8);
        }
        t += 1;
    }
    shard
}

/// The recovery shards of the data shards `data[i..i + k]`.
fn group_parity(data: &Vec<Vec<u8>>, i: usize, k: usize) -> (parity: Vec<Vec<u8>>)
    requires
        1 <= k <= 128,
        i + k <= data@.len(),
        data@.len() > 0,
        data@[0]@.len() > 0,
        forall|j: int| 0 <= j < data@.len() ==> #[trigger] data@[j]@.len() == data@[0]@.len(),
    ensures
        views(parity@) == reed_solomon_parity(views(data@).subrange(i as int, i + k)),
        parity@.len() == k,
        forall|j: int| 0 <= j < k ==> #[trigger] parity@[j]@.len() == data@[0]@.len(),
{
    let shard_len = data[0].len();
    let dl = data.len();
    let mut group: Vec<Vec<u8>> = Vec::new();
    let mut parity: Vec<Vec<u8>> = Vec::new();
    let mut j: usize = 0;
    while j < k
        invariant
            j <= k,
            i + k <= data@.len(),
            dl == data@.len(),
            shard_len == data@[0]@.len(),
            forall|u: int| 0 <= u < data@.len() ==> #[trigger] data@[u]@.len() == data@[0]@.len(),
            group@.len() == j,
            parity@.len() == j,
            views(group@) == views(data@).subrange(i as int, i + j),
            forall|u: int| 0 <= u < j ==> #[trigger] parity@[u]@.len() == shard_len,
        decreases k - j,
    {
        let copy = copy_bytes(data[i + j].as_slice());
        group.push(copy);
        parity.push(zeros(shard_len));
        j += 1;
        assert(views(group@) =~= views(data@).subrange(i as int, i + j));
    }
    assert forall|u: int| 0 <= u < group@.len() implies #[trigger] group@[u]@.len() == group@[
        0
    ]@.len() by {
        assert(views(group@)[u] == views(data@)[i + u]);
        assert(views(group@)[0] == views(data@)[i as int]);
    }
    assert(views(group@)[0] == views(data@)[i as int]);
    match encode_parity(&group, &mut parity) {
        Ok(()) => {},
        Err(_) => {},
    }
    parity
}

/// The data shards of a secret: consecutive pieces of `bs` bytes, the last
/// one completed with zero bytes.
pub(crate) fn cut_into_shards(secret: &Vec<u8>, bs: usize) -> (data: Vec<Vec<u8>>)
    requires
        bs >= 64,
    ensures
        views(data@) == data_shards(secret@, bs as nat),
        forall|j: int| 0 <= j < data@.len() ==> #[trigger] data@[j]@.len() == bs,
{
    if secret.len() == 0 {
        let data: Vec<Vec<u8>> = Vec::new();
        assert((0 + bs - 1) / (bs as int) == 0) by (nonlinear_arith)
            requires
                bs >= 64,
        ;
        assert(views(data@) =~= data_shards(secret@, bs as nat));
        return data;
    }
    let ghost bsn = bs as nat;
    let len = secret.len();
    proof {
        lemma_shard_count(len as int, bs as int);
    }
    let n = len / bs + if len % bs == 0 {
        0
    } else {
        1
    };
    let ghost padded = padded_secret(secret@, bsn);
    let mut data: Vec<Vec<u8>> = Vec::new();
    let mut start: usize = 0;
    let mut i: usize = 0;
    while i < n
        invariant
            64 <= bs,
            bsn == bs,
            len == secret@.len(),
            n == shard_count(len as nat, bsn),
            bs * (n - 1) < len <= bs * n,
            i <= n,
            i < n ==> start == bs * i,
            data@.len() == i,
            forall|j: int|
                0 <= j < i ==> (#[trigger] data@[j])@.len() == bs && forall|t: int|
                    0 <= t < bs ==> #[trigger] data@[j]@[t] == if bs * j + t < len {
                        secret@[bs * j + t]
                    } else {
                        0u8
                    },
        decreases n - i,
    {
        assert(bs * i <= bs * (n - 1)) by (nonlinear_arith)
            requires
                i <= n - 1,
                bs > 0,
        ;
        let shard = shard_at(secret, start, bs);
        data.push(shard);
        if i + 1 < n {
            assert(bs * (i + 1) <= bs * (n - 1) && bs * (i + 1) == bs * i + bs) by (nonlinear_arith)
                requires
                    i + 1 <= n - 1,
                    bs > 0,
            ;
            start = start + bs;
        }
        i += 1;
    }
    assert(views(data@) =~= data_shards(secret@, bsn)) by {
        assert(n * bs == bs * n) by (nonlinear_arith);
        assert(padded.len() == n * bs);
        assert forall|j: int| 0 <= j < n implies views(data@)[j] == data_shards(
            secret@,
            bsn,
        )[j] by {
            assert(0 <= bs * j && bs * j + bs <= bs * n) by (nonlinear_arith)
                requires
                    0 <= j < n,
                    bs > 0,
            ;
            assert(views(data@)[j] =~= padded.subrange(bs * j, bs * j + bs));
        }
    }
    data
}

/// Splits a secret into data shards and recovery shards. The block size is
/// `estimate` held between [`MIN_BLOCK_SIZE`] and [`MAX_BLOCK_SIZE`] and
/// rounded up to a multiple of [`ALIGNMENT`]; the data shards are the
/// zero-padded secret cut into pieces of that size, and the recovery shards
/// come from Reed-Solomon coding of groups of at most
/// [`MAX_AMOUNT_OF_BLOCKS`] data shards.
pub fn split(secret: Vec<u8>, estimate: usize) -> (r: Result<
    (Vec<Vec<u8>>, Vec<Vec<u8>>),
    DataSplittingError,
>)
    requires
        secret@.len() > 0,
    ensures
        r is Ok,
        r matches Ok((data, recv)) ==> {
            let bs = block_size_for(estimate as int) as nat;
            &&& views(data@) == data_shards(secret@, bs)
            &&& views(recv@) == parity_from(views(data@), 0)
            &&& recv@.len() == data@.len()
            &&& forall|j: int| 0 <= j < recv@.len() ==> #[trigger] recv@[j]@.len() == bs
        },
{
    let bs = align_block_size(estimate);
    let data = cut_into_shards(&secret, bs);
    let n = data.len();
    proof {
        lemma_shard_count(secret@.len() as int, bs as int);
        assert(views(data@).len() == data@.len());
        assert(data@[0]@.len() == bs);
    }
    let mut recv: Vec<Vec<u8>> = Vec::new();
    let mut i: usize = 0;
    while i < n
        invariant
            i <= n,
            n == data@.len(),
            n > 0,
            64 <= bs,
            data@[0]@.len() == bs,
            forall|u: int| 0 <= u < data@.len() ==> #[trigger] data@[u]@.len() == bs,
            views(recv@) + parity_from(views(data@), i as int) == parity_from(views(data@), 0),
            recv@.len() == i,
            forall|u: int| 0 <= u < recv@.len() ==> #[trigger] recv@[u]@.len() == bs,
        decreases n - i,
    {
        let k = if n - i < MAX_AMOUNT_OF_BLOCKS {
            n - i
        } else {
            MAX_AMOUNT_OF_BLOCKS
        };
        let group = group_parity(&data, i, k);
        let ghost before = recv@;
        let mut group = group;
        let ghost gv = views(group@);
        recv.append(&mut group);
        assert(views(recv@) =~= views(before) + gv);
        assert(views(recv@) + parity_from(views(data@), (i + k) as int) =~= views(before)
            + parity_from(views(data@), i as int));
        i = i + k;
    }
    assert(views(recv@) =~= parity_from(views(data@), 0));
    Ok((data, recv))
}

// ---------------------------------------------------------------------------
// Recovery
// ---------------------------------------------------------------------------
proof fn lemma_concat_push(s: Seq<Seq<u8>>, x: Seq<u8>)
    ensures
        concat(s.push(x)) == concat(s) + x,
{
    assert(s.push(x).drop_last() =~= s);
}

/// A byte sequence without the zero bytes at its end.
pub open spec fn trim_trailing_zeros(s: Seq<u8>) -> Seq<u8>
    decreases s.len(),
{
    if s.len() > 0 && s.last() == 0 {
        trim_trailing_zeros(s.drop_last())
    } else {
        s
    }
}

/// Recovers the content from the data shards and the recovery shards: each
/// group of at most [`MAX_AMOUNT_OF_BLOCKS`] data shards, together with the
/// recovery shards at the same places, goes through Reed-Solomon
/// reconstruction, the data shards are joined, and the zero bytes at the end
/// (the padding of the last shard) are removed. Reconstruction refuses a
/// group whose shards are not all of one non-zero length.
pub fn recover(data: Vec<Vec<u8>>, recv: Vec<Vec<u8>>) -> (r: Result<Vec<u8>, DataRecoveringError>)
    requires
        recv@.len() >= data@.len(),
    ensures
        (r is Ok) == groups_uniform(views(data@), views(recv@), 0),
        r matches Ok(content) ==> content@ == trim_trailing_zeros(concat(views(data@))),
{
    let n = data.len();
    let mut content: Vec<u8> = Vec::new();
    let mut i: usize = 0;
    while i < n
        invariant
            i <= n,
            n == data@.len(),
            recv@.len() >= n,
            content@ == concat(views(data@).subrange(0, i as int)),
            groups_uniform(views(data@), views(recv@), 0) == groups_uniform(
                views(data@),
                views(recv@),
                i as int,
            ),
        decreases n - i,
    {
        let k = if n - i < MAX_AMOUNT_OF_BLOCKS {
            n - i
        } else {
            MAX_AMOUNT_OF_BLOCKS
        };
        let mut shards: Vec<Option<Vec<u8>>> = Vec::new();
        let mut j: usize = 0;
        while j < 2 * k
            invariant
                j <= 2 * k,
                1 <= k <= 128,
                i + k <= n,
                n == data@.len(),
                recv@.len() >= n,
                shards@.len() == j,
                forall|u: int| 0 <= u < j ==> #[trigger] shards@[u] is Some,
                forall|u: int|
                    0 <= u < j ==> #[trigger] shards@[u]->Some_0@ == (views(data@).subrange(
                        i as int,
                        i + k,
                    ) + views(recv@).subrange(i as int, i + k))[u],
            decreases 2 * k - j,
        {
            let src = if j < k {
                &data[i + j]
            } else {
                &recv[i + (j - k)]
            };
            shards.push(Some(copy_bytes(src.as_slice())));
            j += 1;
        }
        let ghost group = views(data@).subrange(i as int, i + k) + views(recv@).subrange(
            i as int,
            i + k,
        );
        assert(present_views(shards@, 0) =~= group);
        match reconstruct_data(&mut shards, k) {
            Ok(()) => {},
            Err(e) => {
                return Err(DataRecoveringError(e));
            },
        }
        let mut j: usize = 0;
        while j < k
            invariant
                j <= k,
                1 <= k <= 128,
                i + k <= n,
                n == data@.len(),
                shards@.len() == 2 * k,
                forall|u: int| 0 <= u < 2 * k ==> #[trigger] shards@[u] is Some,
                forall|u: int| 0 <= u < 2 * k ==> #[trigger] shards@[u]->Some_0@ == group[u],
                group == views(data@).subrange(i as int, i + k) + views(recv@).subrange(
                    i as int,
                    i + k,
                ),
                content@ == concat(views(data@).subrange(0, i + j)),
            decreases k - j,
        {
            let shard = match &shards[j] {
                Some(s) => s,
                None => {
                    assert(false);
                    return Err(DataRecoveringError(String::new()));
                },
            };
            let mut t: usize = 0;
            let ghost before = content@;
            while t < shard.len()
                invariant
                    t <= shard@.len(),
                    content@ == before + shard@.subrange(0, t as int),
                decreases shard@.len() - t,
            {
                content.push(shard[t]);
                t += 1;
                assert(content@ =~= before + shard@.subrange(0, t as int));
            }
            proof {
                assert(views(data@).subrange(0, i + j + 1) =~= views(data@).subrange(
                    0,
                    i + j,
                ).push(views(data@)[i + j]));
                lemma_concat_push(views(data@).subrange(0, i + j), views(data@)[i + j]);
                assert(shard@ == views(data@)[i + j]);
                assert(content@ =~= before + shard@);
            }
            j += 1;
        }
        i = i + k;
    }
    assert(views(data@).subrange(0, n as int) =~= views(data@));
    let mut end: usize = content.len();
    assert(content@.subrange(0, end as int) =~= content@);
    while end > 0 && content[end - 1] == 0
        invariant
            end <= content@.len(),
            trim_trailing_zeros(content@.subrange(0, end as int)) == trim_trailing_zeros(content@),
        decreases end,
    {
        assert(content@.subrange(0, end as int).drop_last() =~= content@.subrange(0, end - 1));
        end -= 1;
    }
    proof {
        let kept = content@.subrange(0, end as int);
        if end > 0 {
            assert(kept.last() == content@[end - 1]);
        }
        assert(trim_trailing_zeros(kept) == kept);
    }
    content.truncate(end);
    Ok(content)
}

// ---------------------------------------------------------------------------
// Laws
// ---------------------------------------------------------------------------
pub(crate) proof fn lemma_concat_shards(secret: Seq<u8>, bs: nat, m: nat)
    requires
        bs > 0,
        m <= shard_count(secret.len(), bs),
        shard_count(secret.len(), bs) * bs >= secret.len(),
    ensures
        concat(data_shards(secret, bs).subrange(0, m as int)) == padded_secret(secret, bs).subrange(
            0,
            (bs * m) as int,
        ),
    decreases m,
{
    let p = padded_secret(secret, bs);
    let d = data_shards(secret, bs);
    let c = shard_count(secret.len(), bs);
    assert(p.len() == c * bs);
    if m == 0 {
        assert(d.subrange(0, 0) =~= Seq::<Seq<u8>>::empty());
        assert(p.subrange(0, 0) =~= Seq::<u8>::empty());
        assert(bs * m == 0) by (nonlinear_arith)
            requires
                m == 0,
        ;
    } else {
        lemma_concat_shards(secret, bs, (m - 1) as nat);
        assert(concat(d.subrange(0, m - 1)) == p.subrange(0, bs * (m - 1)));
        assert(d.subrange(0, m as int) =~= d.subrange(0, m - 1).push(d[m - 1]));
        lemma_concat_push(d.subrange(0, m - 1), d[m - 1]);
        lemma_mul_succ(bs as int, m - 1);
        assert(bs * m <= c * bs) by (nonlinear_arith)
            requires
                m <= c,
                bs > 0,
        ;
        assert(0 <= bs * (m - 1)) by (nonlinear_arith)
            requires
                m >= 1,
                bs > 0,
        ;
        let prev = p.subrange(0, bs * (m - 1));
        let sh = p.subrange(bs * (m - 1), bs * (m - 1) + bs);
        assert(d[m - 1] == sh);
        assert(bs * m == bs * (m - 1) + bs);
        assert(p.subrange(0, (bs * m) as int) =~= prev + sh);
        assert(concat(d.subrange(0, m as int)) == concat(d.subrange(0, m - 1)) + d[m - 1]);
    }
}

pub(crate) proof fn lemma_groups_uniform(data: Seq<Seq<u8>>, recv: Seq<Seq<u8>>, bs: nat, i: int)
    requires
        bs > 0,
        recv.len() >= data.len(),
        forall|j: int| 0 <= j < data.len() ==> #[trigger] data[j].len() == bs,
        forall|j: int| 0 <= j < data.len() ==> #[trigger] recv[j].len() == bs,
        0 <= i,
    ensures
        groups_uniform(data, recv, i),
    decreases data.len() - i,
{
    if i < data.len() {
        let k = if data.len() - i < 128 {
            data.len() - i
        } else {
            128
        };
        let g = data.subrange(i, i + k) + recv.subrange(i, i + k);
        assert forall|j: int| 0 <= j < g.len() implies #[trigger] g[j].len() == g[0].len() by {
            if j < k {
                assert(g[j] == data[i + j]);
            } else {
                assert(g[j] == recv[i + j - k]);
            }
        }
        lemma_groups_uniform(data, recv, bs, i + k);
    }
}

/// Zero bytes put after a sequence whose last byte is not zero are all
/// removed again, and nothing more.
proof fn lemma_trim_padding(s: Seq<u8>, n: nat)
    requires
        s.len() > 0,
        s.last() != 0,
    ensures
        trim_trailing_zeros(s + Seq::new(n, |i: int| 0u8)) == s,
    decreases n,
{
    let t = s + Seq::new(n, |i: int| 0u8);
    if n == 0 {
        assert(t =~= s);
    } else {
        assert(t.drop_last() =~= s + Seq::new((n - 1) as nat, |i: int| 0u8));
        lemma_trim_padding(s, (n - 1) as nat);
    }
}

/// What `split` produces, `recover` takes back: given the data shards of a
/// secret and at least as many recovery shards, the first of them of the
/// block size, recovery succeeds; the shards joined are the secret followed
/// by the zero bytes of the last shard, and without the zero bytes at their
/// end they are the secret itself where its last byte is not zero.
pub proof fn lemma_recover_after_split(
    secret: Seq<u8>,
    estimate: int,
    data: Seq<Seq<u8>>,
    recv: Seq<Seq<u8>>,
)
    requires
        secret.len() > 0,
        data == data_shards(secret, block_size_for(estimate) as nat),
        recv.len() >= data.len(),
        forall|j: int| 0 <= j < data.len() ==> #[trigger] recv[j].len() == block_size_for(estimate),
    ensures
        groups_uniform(data, recv, 0),
        concat(data) == padded_secret(secret, block_size_for(estimate) as nat),
        padded_secret(secret, block_size_for(estimate) as nat).subrange(0, secret.len() as int)
            == secret,
        secret.last() != 0 ==> trim_trailing_zeros(concat(data)) == secret,
{
    let bs = block_size_for(estimate) as nat;
    assert(64 <= bs) by (nonlinear_arith)
        requires
            bs == block_size_for(estimate),
    ;
    let c = shard_count(secret.len(), bs);
    assert(c * bs >= secret.len() && c * bs < secret.len() + bs) by (nonlinear_arith)
        requires
            bs > 0,
            c == (secret.len() + bs - 1) / (bs as int),
    ;
    lemma_concat_shards(secret, bs, c);
    assert(data.subrange(0, c as int) =~= data);
    let padded = padded_secret(secret, bs);
    assert(padded.len() == c * bs);
    assert(bs * c == c * bs) by (nonlinear_arith);
    assert(padded.subrange(0, (bs * c) as int) =~= padded);
    assert forall|j: int| 0 <= j < data.len() implies #[trigger] data[j].len() == bs by {
        assert(0 <= bs * j && bs * j + bs <= c * bs) by (nonlinear_arith)
            requires
                0 <= j < c,
                bs > 0,
        ;
        assert(data[j] == padded.subrange(bs * j, bs * j + bs));
    }
    lemma_groups_uniform(data, recv, bs, 0);
    assert(padded_secret(secret, bs).subrange(0, secret.len() as int) =~= secret);
    if secret.last() != 0 {
        lemma_trim_padding(secret, (c * bs - secret.len()) as nat);
    }
}

// ---------------------------------------------------------------------------
// Errors
// ---------------------------------------------------------------------------
/// The secret could not be split.
#[derive(Debug)]
pub struct DataSplittingError(pub String);

/// The content could not be recovered.
#[derive(Debug)]
pub struct DataRecoveringError(pub String);

} // verus!
