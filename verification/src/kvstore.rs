//! The in-memory store of a storage peer: shard contents by hash.
use vstd::prelude::*;
use vstd::string::StringExecFns;

use crate::assoc::{keys_unique, lemma_absent, lemma_map_of_unique, lemma_push_new, lemma_set_existing, lemma_swap_remove, map_of};
use crate::broadcast::{decimal, decimal_text};
use crate::bytes::{copy_bytes, same_bytes};
use crate::credentials::{join, join_path};

verus! {

/// Bytes in decimal, separated by a comma and a space.
pub open spec fn decimal_list(bytes: Seq<u8>) -> Seq<char>
    decreases bytes.len(),
{
    if bytes.len() == 0 {
        Seq::empty()
    } else if bytes.len() == 1 {
        decimal_text(bytes[0] as nat)
    } else {
        decimal_list(bytes.drop_last()) + seq![',', ' '] + decimal_text(bytes.last() as nat)
    }
}

/// What `format!("{:?}", bytes)` writes for a byte slice: the list of its
/// bytes in decimal within square brackets, such as `[1, 2, 3]`.
pub open spec fn debug_text(bytes: Seq<u8>) -> Seq<char> {
    seq!['['] + decimal_list(bytes) + seq![']']
}

/// The `Debug` text of a byte slice, as `format!("{:?}", bytes)` writes it.
fn debug_bytes(bytes: &[u8]) -> (s: String)
    ensures
        s@ == debug_text(bytes@),
{
    proof {
        reveal_strlit("[");
    }
    let mut s = String::from_str("[");
    let mut i: usize = 0;
    while i < bytes.len()
        invariant
            i <= bytes@.len(),
            s@ == seq!['['] + decimal_list(bytes@.subrange(0, i as int)),
        decreases bytes@.len() - i,
    {
        let ghost before = s@;
        let ghost prefix = bytes@.subrange(0, i + 1);
        assert(prefix.drop_last() =~= bytes@.subrange(0, i as int));
        proof {
            reveal_strlit(", ");
        }
        if i > 0 {
            s.append(", ");
        }
        let d = decimal(bytes[i]);
        s.append(d.as_str());
        proof {
            if i == 0 {
                assert(before =~= seq!['[']);
                assert(decimal_list(prefix) == decimal_text(bytes@[0] as nat));
            }
            assert(s@ =~= seq!['['] + decimal_list(prefix));
        }
        i += 1;
    }
    proof {
        reveal_strlit("]");
    }
    s.append("]");
    assert(bytes@.subrange(0, bytes@.len() as int) =~= bytes@);
    s
}

/// The plain values of a list of pairs of byte vectors.
pub open spec fn byte_pairs(entries: Seq<(Vec<u8>, Vec<u8>)>) -> Seq<(Seq<u8>, Seq<u8>)> {
    Seq::new(entries.len(), |i: int| (entries[i].0@, entries[i].1@))
}

fn find(entries: &Vec<(Vec<u8>, Vec<u8>)>, key: &[u8]) -> (r: Option<usize>)
    ensures
        r matches Some(i) ==> i < entries@.len() && entries@[i as int].0@ == key@,
        r is None ==> forall|i: int| 0 <= i < entries@.len() ==> #[trigger] entries@[i].0@ != key@,
{
    let mut i: usize = 0;
    while i < entries.len()
        invariant
            i <= entries@.len(),
            forall|u: int| 0 <= u < i ==> #[trigger] entries@[u].0@ != key@,
        decreases entries@.len() - i,
    {
        if same_bytes(entries[i].0.as_slice(), key) {
            return Some(i);
        }
        i += 1;
    }
    None
}

/// The working folder in the home directory.
pub const DEFAULT_WORKING_DIR: &'static str = ".leaf";

/// The folder of the store in the working folder.
pub const DEFAULT_STORAGE_PATH: &'static str = "server";

/// The file of the store in its folder.
pub const DEFAULT_STORAGE_FILE_NAME: &'static str = "stor";

/// The path of the file that a store is read from, for a home directory.
pub fn storage_file_path(home: &str) -> (p: String)
    ensures
        p@ == join_path(
            join_path(join_path(home@, DEFAULT_WORKING_DIR@), DEFAULT_STORAGE_PATH@),
            DEFAULT_STORAGE_FILE_NAME@,
        ),
{
    let working = join(home, DEFAULT_WORKING_DIR);
    let dir = join(working.as_str(), DEFAULT_STORAGE_PATH);
    join(dir.as_str(), DEFAULT_STORAGE_FILE_NAME)
}

/// Shard contents by hash.
pub struct BroadcastServerStorage {
    database: Vec<(Vec<u8>, Vec<u8>)>,
}

impl BroadcastServerStorage {
    #[verifier::type_invariant]
    spec fn no_repeated_hash(self) -> bool {
        keys_unique(byte_pairs(self.database@))
    }

    /// The contents by hash.
    pub closed spec fn contents(self) -> Map<Seq<u8>, Seq<u8>> {
        map_of(byte_pairs(self.database@))
    }

    /// A store that holds nothing.
    pub fn empty() -> (s: BroadcastServerStorage)
        ensures
            s.contents() == Map::<Seq<u8>, Seq<u8>>::empty(),
    {
        let s = BroadcastServerStorage { database: Vec::new() };
        assert(byte_pairs(s.database@) =~= Seq::<(Seq<u8>, Seq<u8>)>::empty());
        s
    }

    /// The store that a list of (hash, content) pairs describes, as it is
    /// read back from its file; a later pair for a hash replaces an earlier
    /// one.
    pub fn from_entries(entries: Vec<(Vec<u8>, Vec<u8>)>) -> (s: BroadcastServerStorage)
        ensures
            s.contents() == map_of(byte_pairs(entries@)),
    {
        let mut s = BroadcastServerStorage::empty();
        let mut i: usize = 0;
        while i < entries.len()
            invariant
                i <= entries@.len(),
                s.contents() == map_of(byte_pairs(entries@).subrange(0, i as int)),
            decreases entries@.len() - i,
        {
            s.add(entries[i].0.as_slice(), entries[i].1.as_slice());
            proof {
                let p = byte_pairs(entries@);
                assert(p.subrange(0, i + 1).drop_last() =~= p.subrange(0, i as int));
                assert(p.subrange(0, i + 1).last() == p[i as int]);
            }
            i += 1;
        }
        assert(byte_pairs(entries@).subrange(0, entries@.len() as int) =~= byte_pairs(entries@));
        s
    }

    /// Keeps a shard under its hash, in place of one kept under it before.
    pub fn add(&mut self, hash: &[u8], chunk: &[u8])
        ensures
            final(self).contents() == old(self).contents().insert(hash@, chunk@),
    {
        proof {
            use_type_invariant(&*self);
        }
        let ghost before = byte_pairs(self.database@);
        let mut entries: Vec<(Vec<u8>, Vec<u8>)> = Vec::new();
        std::mem::swap(&mut entries, &mut self.database);
        let k = copy_bytes(hash);
        let v = copy_bytes(chunk);
        match find(&entries, hash) {
            Some(i) => {
                entries.set(i, (k, v));
                proof {
                    assert(before[i as int].0 == hash@);
                    lemma_set_existing(before, i as int, hash@, chunk@);
                    assert(byte_pairs(entries@) =~= before.update(i as int, (hash@, chunk@)));
                }
            },
            None => {
                entries.push((k, v));
                proof {
                    assert forall|j: int| 0 <= j < before.len() implies #[trigger] before[j].0 != hash@ by {
                        assert(before[j].0 == old(self).database@[j].0@);
                    }
                    lemma_push_new(before, hash@, chunk@);
                    assert(byte_pairs(entries@) =~= before.push((hash@, chunk@)));
                }
            },
        }
        self.database = entries;
    }

    /// The shard kept under a hash; a hash under which nothing is kept is
    /// refused with its `Debug` rendering.
    pub fn get(&self, hash: &[u8]) -> (r: Result<Vec<u8>, RetrieveFromStorageError>)
        ensures
            (r is Ok) == self.contents().contains_key(hash@),
            r matches Ok(c) ==> c@ == self.contents()[hash@],
            r matches Err(e) ==> e.0@ == debug_text(hash@),
    {
        proof {
            use_type_invariant(self);
            lemma_map_of_unique(byte_pairs(self.database@));
        }
        match find(&self.database, hash) {
            Some(i) => {
                assert(byte_pairs(self.database@)[i as int].0 == hash@);
                assert(map_of(byte_pairs(self.database@)).contains_key(byte_pairs(self.database@)[i as int].0));
                Ok(copy_bytes(self.database[i].1.as_slice()))
            },
            None => {
                proof {
                    assert forall|j: int| 0 <= j < self.database@.len() implies #[trigger] byte_pairs(
                        self.database@,
                    )[j].0 != hash@ by {
                        assert(self.database@[j].0@ != hash@);
                    }
                    lemma_absent(byte_pairs(self.database@), hash@);
                }
                Err(RetrieveFromStorageError(debug_bytes(hash)))
            },
        }
    }

    /// Takes the shard kept under a hash out of the store; a hash under which
    /// nothing is kept is refused with its `Debug` rendering.
    pub fn pop(&mut self, hash: &[u8]) -> (r: Result<Vec<u8>, PoppingFromStorageError>)
        ensures
            (r is Ok) == old(self).contents().contains_key(hash@),
            r matches Ok(c) ==> c@ == old(self).contents()[hash@],
            r matches Err(e) ==> e.0@ == debug_text(hash@),
            final(self).contents() == old(self).contents().remove(hash@),
    {
        proof {
            use_type_invariant(&*self);
            lemma_map_of_unique(byte_pairs(self.database@));
        }
        let ghost before = byte_pairs(self.database@);
        let mut entries: Vec<(Vec<u8>, Vec<u8>)> = Vec::new();
        std::mem::swap(&mut entries, &mut self.database);
        let r = match find(&entries, hash) {
            Some(i) => {
                let (_, content) = entries.swap_remove(i);
                proof {
                    assert(before[i as int].0 == hash@);
                    assert(map_of(before).contains_key(before[i as int].0));
                    lemma_swap_remove(before, i as int);
                    assert(byte_pairs(entries@) =~= before.update(i as int, before.last()).drop_last());
                }
                Ok(content)
            },
            None => {
                proof {
                    assert forall|j: int| 0 <= j < before.len() implies #[trigger] before[j].0 != hash@ by {
                        assert(before[j].0 == entries@[j].0@);
                    }
                    lemma_absent(before, hash@);
                }
                Err(PoppingFromStorageError(debug_bytes(hash)))
            },
        };
        self.database = entries;
        r
    }
}

/// What a store gives back of a hash is the shard last added under it, and
/// popping takes it out.
pub proof fn lemma_get_after_add(contents: Map<Seq<u8>, Seq<u8>>, hash: Seq<u8>, chunk: Seq<u8>)
    ensures
        contents.insert(hash, chunk).contains_key(hash),
        contents.insert(hash, chunk)[hash] == chunk,
        contents.insert(hash, chunk).remove(hash) == contents.remove(hash),
{
    assert(contents.insert(hash, chunk).remove(hash) =~= contents.remove(hash));
}

/// The store could not be set up.
#[derive(Debug)]
pub struct ServerPeerInitializingError(pub String);

/// The store file could not be read.
#[derive(Debug)]
pub struct FromFileInitializingError(pub String);

/// Nothing is kept under a hash.
#[derive(Debug)]
pub struct RetrieveFromStorageError(pub String);

/// Nothing is kept under a hash.
#[derive(Debug)]
pub struct PoppingFromStorageError(pub String);

} // verus!
