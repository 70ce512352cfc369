//! Shamir secret sharing of a file's content into five shares over GF(256),
//! of which a threshold recovers the content.
use sharks::{Share, Sharks};
use vstd::prelude::*;

verus! {

/// How many shares a secret is split into.
pub const AMOUNT_OF_CHUNKS: usize = 5;

/// The secret that Shamir interpolation recovers from shares (each share
/// its x coordinate byte followed by the y bytes) for a threshold.
pub uninterp spec fn shamir_recovered(threshold: u8, shares: Seq<Seq<u8>>) -> Seq<u8>;

/// The x coordinates of a list of shares.
pub open spec fn share_xs(shares: Seq<Seq<u8>>) -> Set<u8> {
    Set::new(|x: u8| exists|i: int| 0 <= i < shares.len() && #[trigger] shares[i][0] == x)
}

/// Shares that interpolation takes: each at least two bytes long, all of one
/// length, with at least as many distinct x coordinates as the threshold
/// (and at least one).
pub open spec fn recoverable(threshold: u8, shares: Seq<Seq<u8>>) -> bool {
    &&& shares.len() > 0
    &&& forall|i: int| 0 <= i < shares.len() ==> #[trigger] shares[i].len() >= 2
    &&& forall|i: int| 0 <= i < shares.len() ==> #[trigger] shares[i].len() == shares[0].len()
    &&& share_xs(shares).finite()
    &&& share_xs(shares).len() >= threshold
}

/// The views of a list of byte vectors.
pub open spec fn seqs(v: Seq<Vec<u8>>) -> Seq<Seq<u8>> {
    Seq::new(v.len(), |i: int| v[i]@)
}

/// Calls `Sharks(threshold).dealer(secret)` and takes its first `count`
/// shares, each written as its x coordinate followed by its y bytes. The
/// dealer yields the points x = 1 to 255 of polynomials it draws at random;
/// whatever it draws, the shares have the x coordinates 1 to `count`, are
/// one byte longer than the secret, and, where there is at least one and no
/// fewer than the threshold, interpolate back to the secret.
#[verifier::external_body]
fn deal_shares(threshold: u8, count: usize, secret: &[u8]) -> (shares: Vec<Vec<u8>>)
    requires
        count <= 255,
    ensures
        shares@.len() == count,
        forall|i: int| 0 <= i < count ==> (#[trigger] shares@[i])@.len() == secret@.len() + 1,
        forall|i: int| 0 <= i < count ==> (#[trigger] shares@[i])@[0] == i + 1,
        0 < count && threshold <= count ==> shamir_recovered(threshold, seqs(shares@)) == secret@,
{
    Sharks(threshold).dealer(secret).take(count).map(|s| Vec::from(&s)).collect()
}

/// Calls `Share::try_from` on each share and `Sharks(threshold).recover` on
/// them; with shares that interpolation takes, it returns the interpolated
/// secret.
#[verifier::external_body]
fn recover_shares(threshold: u8, shares: &Vec<Vec<u8>>) -> (secret: Vec<u8>)
    requires
        recoverable(threshold, seqs(shares@)),
    ensures
        secret@ == shamir_recovered(threshold, seqs(shares@)),
{
    let parsed: Vec<Share> = shares.iter().map(|c| Share::try_from(c.as_slice()).unwrap()).collect();
    Sharks(threshold).recover(parsed.iter()).unwrap()
}

/// Splitting of a secret into shares and its recovery from them.
pub trait SecretSharer {
    /// The shares from which a secret can be recovered.
    spec fn accepts(&self, chunks: Seq<Seq<u8>>) -> bool;

    /// Splits a secret into shares.
    fn split_into_chunks(&self, secret: Vec<u8>) -> Vec<Vec<u8>>;

    /// Recovers the secret from shares.
    fn recover_from_chunks(&self, chunks: Vec<Vec<u8>>) -> Vec<u8>
        requires
            self.accepts(seqs(chunks@)),
    ;
}

/// Shamir secret sharing with a threshold.
pub struct ShamirSecretSharer {
    threshold: u8,
}

impl ShamirSecretSharer {
    /// The number of shares that recover a secret.
    pub closed spec fn threshold(self) -> u8 {
        self.threshold
    }

    /// A sharer whose secrets are recovered from `parts_to_split` shares.
    pub fn new(parts_to_split: u8) -> (s: ShamirSecretSharer)
        ensures
            s.threshold() == parts_to_split,
    {
        ShamirSecretSharer { threshold: parts_to_split }
    }
}

impl SecretSharer for ShamirSecretSharer {
    open spec fn accepts(&self, chunks: Seq<Seq<u8>>) -> bool {
        recoverable(self.threshold(), chunks)
    }

    /// Five shares of the secret, with the x coordinates 1 to 5, each one
    /// byte longer than the secret.
    fn split_into_chunks(&self, secret: Vec<u8>) -> (shares: Vec<Vec<u8>>)
        ensures
            shares@.len() == AMOUNT_OF_CHUNKS,
            forall|i: int| 0 <= i < 5 ==> (#[trigger] shares@[i])@.len() == secret@.len() + 1,
            forall|i: int| 0 <= i < 5 ==> (#[trigger] shares@[i])@[0] == i + 1,
            self.threshold() <= 5 ==> shamir_recovered(self.threshold(), seqs(shares@)) == secret@,
    {
        deal_shares(self.threshold, AMOUNT_OF_CHUNKS, secret.as_slice())
    }

    /// The secret interpolated from the shares.
    fn recover_from_chunks(&self, chunks: Vec<Vec<u8>>) -> (secret: Vec<u8>)
        ensures
            secret@ == shamir_recovered(self.threshold(), seqs(chunks@)),
    {
        recover_shares(self.threshold, &chunks)
    }
}

/// The shares of a non-empty secret are recoverable for a threshold up to
/// five, and give the secret back.
pub proof fn lemma_recover_after_split(threshold: u8, secret: Seq<u8>, shares: Seq<Seq<u8>>)
    requires
        threshold <= 5,
        secret.len() >= 1,
        shares.len() == 5,
        forall|i: int| 0 <= i < 5 ==> (#[trigger] shares[i]).len() == secret.len() + 1,
        forall|i: int| 0 <= i < 5 ==> (#[trigger] shares[i])[0] == i + 1,
        shamir_recovered(threshold, shares) == secret,
    ensures
        recoverable(threshold, shares),
        shamir_recovered(threshold, shares) == secret,
{
    let xs = share_xs(shares);
    let five = Set::new(|x: u8| 1 <= x <= 5);
    assert(xs =~= five) by {
        assert forall|x: u8| five.contains(x) implies xs.contains(x) by {
            let i = x - 1;
            assert(shares[i as int][0] == x);
        }
    }
    assert(five =~= set![1u8, 2u8, 3u8, 4u8, 5u8]);
    assert(set![1u8, 2u8, 3u8, 4u8, 5u8].len() == 5);
}

/// The secret could not be split.
#[derive(Debug)]
pub struct DataSplittingError;

/// The secret could not be recovered.
#[derive(Debug)]
pub struct DataRecoveringError;

} // verus!
