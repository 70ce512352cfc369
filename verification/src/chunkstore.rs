//! The local store of a storage peer that keeps every shard in a file of
//! its own, named by the shard's bytes read as a UUID, and remembers which
//! file holds the shard of each hash.
//!
//! The peer process writes and reads the files; this module names them and
//! keeps the index, which is saved as a checkpoint when the peer stops.
use uuid::Uuid;
use vstd::prelude::*;
use vstd::string::StringExecFns;

use crate::assoc::{keys_unique, lemma_absent, lemma_map_of_unique, lemma_push_new, lemma_set_existing, map_of};
use crate::bytes::{copy_bytes, same_bytes};
use crate::credentials::{join, join_path};
use crate::encoding::hex_lower;
use crate::ofb::WORKING_FOLDER_NAME;

verus! {

/// The name of the checkpoint file, in the working folder.
pub const LAST_CHECKPOINT_FILENAME: &'static str = "last_checkpoint.json";

/// The folder of the shard files, in the working folder.
pub const CHUNKS_FOLDER_NAME: &'static str = "chunks";

/// The message of the error for a hash that is not kept.
pub const NO_CHUNK_MESSAGE: &'static str = "No chunk with such hash sum is found";

/// The hyphenated lower-case text of the UUID made of sixteen bytes: the
/// bytes in hexadecimal, in groups of 4, 2, 2, 2 and 6 bytes.
pub open spec fn uuid_text(b: Seq<u8>) -> Seq<char> {
    hex_lower(b.subrange(0, 4)) + seq!['-'] + hex_lower(b.subrange(4, 6)) + seq!['-']
        + hex_lower(b.subrange(6, 8)) + seq!['-'] + hex_lower(b.subrange(8, 10)) + seq!['-']
        + hex_lower(b.subrange(10, 16))
}

/// Calls `Uuid::from_slice`, which takes exactly sixteen bytes, and renders
/// the UUID with `to_string` (its hyphenated lower-case form). The text of
/// an error is the crate's message.
#[verifier::external_body]
fn uuid_name(bytes: &[u8]) -> (r: Result<String, String>)
    ensures
        (r is Ok) == (bytes@.len() == 16),
        r matches Ok(s) ==> s@ == uuid_text(bytes@),
{
    match Uuid::from_slice(bytes) {
        Ok(u) => Ok(u.to_string()),
        Err(e) => Err(e.to_string()),
    }
}

/// The plain values of a list of (hash, file name) pairs.
pub open spec fn name_pairs(entries: Seq<(Vec<u8>, String)>) -> Seq<(Seq<u8>, Seq<char>)> {
    Seq::new(entries.len(), |i: int| (entries[i].0@, entries[i].1@))
}

fn find(entries: &Vec<(Vec<u8>, String)>, key: &[u8]) -> (r: Option<usize>)
    ensures
        r matches Some(i) ==> i < entries@.len() && entries@[i as int].0@ == key@,
        r is None ==> forall|i: int| 0 <= i < entries@.len() ==> #[trigger] entries@[i].0@ != key@,
{
    let mut i: usize = 0;
    while i < entries.len()
        invariant
            i <= entries@.len(),
            forall|u: int| 0 <= u < i ==> #[trigger] entries@[u].0@ != key@,
        decreases entries@.len() - i,
    {
        if same_bytes(entries[i].0.as_slice(), key) {
            return Some(i);
        }
        i += 1;
    }
    None
}

/// The shard files of a peer and the file of each hash.
pub struct LocalChunksStorage {
    keeping_dir: String,
    matching_db: Vec<(Vec<u8>, String)>,
}

impl LocalChunksStorage {
    #[verifier::type_invariant]
    spec fn no_repeated_hash(self) -> bool {
        keys_unique(name_pairs(self.matching_db@))
    }

    /// The folder of the shard files.
    pub closed spec fn dir(self) -> Seq<char> {
        self.keeping_dir@
    }

    /// The name of the file of each hash.
    pub closed spec fn files(self) -> Map<Seq<u8>, Seq<char>> {
        map_of(name_pairs(self.matching_db@))
    }

    /// An empty store whose shard files go to the chunks folder of the
    /// working folder of a home directory.
    pub fn new(home: &str) -> (s: LocalChunksStorage)
        ensures
            s.dir() == join_path(join_path(home@, WORKING_FOLDER_NAME@), CHUNKS_FOLDER_NAME@),
            s.files() == Map::<Seq<u8>, Seq<char>>::empty(),
    {
        let working = join(home, WORKING_FOLDER_NAME);
        let keeping_dir = join(working.as_str(), CHUNKS_FOLDER_NAME);
        let s = LocalChunksStorage { keeping_dir, matching_db: Vec::new() };
        assert(name_pairs(s.matching_db@) =~= Seq::<(Seq<u8>, Seq<char>)>::empty());
        s
    }

    /// The store that a checkpoint describes: its folder and its (hash,
    /// file name) pairs, a later pair for a hash replacing an earlier one.
    pub fn from_checkpoint(keeping_dir: String, entries: Vec<(Vec<u8>, String)>) -> (s: LocalChunksStorage)
        ensures
            s.dir() == keeping_dir@,
            s.files() == map_of(name_pairs(entries@)),
    {
        let mut s = LocalChunksStorage { keeping_dir, matching_db: Vec::new() };
        assert(name_pairs(s.matching_db@) =~= Seq::<(Seq<u8>, Seq<char>)>::empty());
        let mut i: usize = 0;
        while i < entries.len()
            invariant
                i <= entries@.len(),
                s.dir() == keeping_dir@,
                s.files() == map_of(name_pairs(entries@).subrange(0, i as int)),
            decreases entries@.len() - i,
        {
            s.record(entries[i].0.as_slice(), entries[i].1.clone());
            proof {
                let p = name_pairs(entries@);
                assert(p.subrange(0, i + 1).drop_last() =~= p.subrange(0, i as int));
                assert(p.subrange(0, i + 1).last() == p[i as int]);
            }
            i += 1;
        }
        assert(name_pairs(entries@).subrange(0, entries@.len() as int) =~= name_pairs(entries@));
        s
    }

    /// The (hash, file name) pairs to write into the checkpoint, each hash
    /// once.
    pub fn entries(&self) -> (e: Vec<(Vec<u8>, String)>)
        ensures
            map_of(name_pairs(e@)) == self.files(),
            keys_unique(name_pairs(e@)),
    {
        proof {
            use_type_invariant(self);
        }
        let mut e: Vec<(Vec<u8>, String)> = Vec::new();
        let mut i: usize = 0;
        while i < self.matching_db.len()
            invariant
                i <= self.matching_db@.len(),
                e@.len() == i,
                name_pairs(e@) == name_pairs(self.matching_db@).subrange(0, i as int),
            decreases self.matching_db@.len() - i,
        {
            let k = copy_bytes(self.matching_db[i].0.as_slice());
            let f = self.matching_db[i].1.clone();
            assert(k@ == self.matching_db@[i as int].0@ && f@ == self.matching_db@[i as int].1@);
            e.push((k, f));
            i += 1;
            assert(name_pairs(e@) =~= name_pairs(self.matching_db@).subrange(0, i as int));
        }
        assert(name_pairs(self.matching_db@).subrange(0, i as int) =~= name_pairs(self.matching_db@));
        e
    }

    /// The folder of the shard files.
    pub fn get_dir(&self) -> (d: &String)
        ensures
            d@ == self.dir(),
    {
        &self.keeping_dir
    }

    fn record(&mut self, hash: &[u8], name: String)
        ensures
            final(self).files() == old(self).files().insert(hash@, name@),
            final(self).dir() == old(self).dir(),
    {
        proof {
            use_type_invariant(&*self);
        }
        let ghost before = name_pairs(self.matching_db@);
        let ghost nv = name@;
        let mut entries: Vec<(Vec<u8>, String)> = Vec::new();
        std::mem::swap(&mut entries, &mut self.matching_db);
        let k = copy_bytes(hash);
        match find(&entries, hash) {
            Some(i) => {
                entries.set(i, (k, name));
                proof {
                    assert(before[i as int].0 == hash@);
                    lemma_set_existing(before, i as int, hash@, nv);
                    assert(name_pairs(entries@) =~= before.update(i as int, (hash@, nv)));
                }
            },
            None => {
                entries.push((k, name));
                proof {
                    assert forall|j: int| 0 <= j < before.len() implies #[trigger] before[j].0 != hash@ by {
                        assert(before[j].0 == old(self).matching_db@[j].0@);
                    }
                    lemma_push_new(before, hash@, nv);
                    assert(name_pairs(entries@) =~= before.push((hash@, nv)));
                }
            },
        }
        self.matching_db = entries;
    }

    /// Keeps a shard: its file is named by the shard's sixteen bytes read as
    /// a UUID, and the hash is recorded as kept in that file (in place of a
    /// file recorded for it before). The result is the path of the file, to
    /// be written with the shard.
    pub fn save(&mut self, chunk: &[u8], hash: &[u8]) -> (path: String)
        requires
            chunk@.len() == 16,
        ensures
            final(self).files() == old(self).files().insert(hash@, uuid_text(chunk@)),
            final(self).dir() == old(self).dir(),
            path@ == join_path(old(self).dir(), uuid_text(chunk@)),
    {
        let name = match uuid_name(chunk) {
            Ok(n) => n,
            Err(e) => e,
        };
        let path = join(self.keeping_dir.as_str(), name.as_str());
        self.record(hash, name);
        path
    }

    /// The path of the file that keeps the shard of a hash; a hash that is
    /// not kept is refused with [`NO_CHUNK_MESSAGE`].
    pub fn retrieve(&self, hash: &[u8]) -> (r: Result<String, String>)
        ensures
            (r is Ok) == self.files().contains_key(hash@),
            r matches Ok(path) ==> path@ == join_path(self.dir(), self.files()[hash@]),
            r matches Err(e) ==> e@ == NO_CHUNK_MESSAGE@,
    {
        proof {
            use_type_invariant(self);
            lemma_map_of_unique(name_pairs(self.matching_db@));
        }
        match find(&self.matching_db, hash) {
            Some(i) => {
                assert(name_pairs(self.matching_db@)[i as int].0 == hash@);
                assert(map_of(name_pairs(self.matching_db@)).contains_key(
                    name_pairs(self.matching_db@)[i as int].0,
                ));
                Ok(join(self.keeping_dir.as_str(), self.matching_db[i].1.as_str()))
            },
            None => {
                proof {
                    assert forall|j: int| 0 <= j < self.matching_db@.len() implies #[trigger] name_pairs(
                        self.matching_db@,
                    )[j].0 != hash@ by {
                        assert(self.matching_db@[j].0@ != hash@);
                    }
                    lemma_absent(name_pairs(self.matching_db@), hash@);
                }
                Err(String::from_str(NO_CHUNK_MESSAGE))
            },
        }
    }
}

/// A shard saved under a hash is retrieved from the file it was saved in,
/// until another shard is saved under the same hash.
pub proof fn lemma_retrieve_after_save(
    files: Map<Seq<u8>, Seq<char>>,
    hash: Seq<u8>,
    chunk: Seq<u8>,
    other: Seq<u8>,
)
    requires
        other != hash,
    ensures
        files.insert(hash, uuid_text(chunk)).contains_key(hash),
        files.insert(hash, uuid_text(chunk))[hash] == uuid_text(chunk),
        files.insert(hash, uuid_text(chunk)).contains_key(other) == files.contains_key(other),
        files.contains_key(other) ==> files.insert(hash, uuid_text(chunk))[other] == files[other],
{
}

} // verus!
