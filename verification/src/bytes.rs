//! Copies of byte strings.
use vstd::prelude::*;

verus! {

/// `n` zero bytes.
pub open spec fn zero_bytes(n: nat) -> Seq<u8> {
    Seq::new(n, |i: int| 0u8)
}

/// Copies a slice into a new vector.
pub fn copy_bytes(s: &[u8]) -> (v: Vec<u8>)
    ensures
        v@ == s@,
{
    let mut v: Vec<u8> = Vec::new();
    let mut i: usize = 0;
    while i < s.len()
        invariant
            i <= s@.len(),
            v@ == s@.subrange(0, i as int),
        decreases s@.len() - i,
    {
        v.push(s[i]);
        i += 1;
        assert(v@ =~= s@.subrange(0, i as int));
    }
    assert(v@ =~= s@);
    v
}

/// `n` zero bytes.
pub fn zeros(n: usize) -> (v: Vec<u8>)
    ensures
        v@ == zero_bytes(n as nat),
{
    let mut v: Vec<u8> = Vec::new();
    let mut i: usize = 0;
    while i < n
        invariant
            i <= n,
            v@ == zero_bytes(i as nat),
        decreases n - i,
    {
        v.push(0u8);
        i += 1;
        assert(v@ =~= zero_bytes(i as nat));
    }
    v
}

/// Copies a list of byte strings.
pub fn copy_all(s: &Vec<Vec<u8>>) -> (v: Vec<Vec<u8>>)
    ensures
        v@.len() == s@.len(),
        forall|i: int| 0 <= i < s@.len() ==> (#[trigger] v@[i])@ == s@[i]@,
{
    let mut v: Vec<Vec<u8>> = Vec::new();
    let mut i: usize = 0;
    while i < s.len()
        invariant
            i <= s@.len(),
            v@.len() == i,
            forall|u: int| 0 <= u < i ==> (#[trigger] v@[u])@ == s@[u]@,
        decreases s@.len() - i,
    {
        v.push(copy_bytes(s[i].as_slice()));
        i += 1;
    }
    v
}

/// Whether two byte strings are equal.
pub fn same_bytes(a: &[u8], b: &[u8]) -> (r: bool)
    ensures
        r == (a@ == b@),
{
    if a.len() != b.len() {
        return false;
    }
    let mut i: usize = 0;
    while i < a.len()
        invariant
            i <= a@.len(),
            a@.len() == b@.len(),
            forall|u: int| 0 <= u < i ==> a@[u] == b@[u],
        decreases a@.len() - i,
    {
        if a[i] != b[i] {
            return false;
        }
        i += 1;
    }
    assert(a@ =~= b@);
    true
}

} // verus!
