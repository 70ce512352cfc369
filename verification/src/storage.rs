//! The index of a storage server: which file keeps the shard of which hash,
//! and how much space the kept shards take.
//!
//! The files themselves are written, read and removed by the server process;
//! this index decides where a shard goes and what a request is answered.
use vstd::prelude::*;
use vstd::pervasive::VecAdditionalExecFns;
use vstd::string::StringExecFns;

use uuid::Uuid;

use crate::assoc::{
    keys_unique, lemma_absent, lemma_map_of_unique, lemma_push_new, lemma_set_existing,
    lemma_swap_remove, map_of,
};
use crate::credentials::{join, join_path};

verus! {

/// The most bytes that a server keeps: 10 GiB.
pub const MAX_OCCUPIED_SPACE: u64 = 10737418240;

/// The message of the error for a hash that the index does not hold.
pub const NO_SUCH_HASH_MESSAGE: &'static str = "No such hash was found";

/// The extension of the files that keep shards.
pub const SHARD_FILE_EXTENSION: &'static str = ".bin";

/// The directory of the applications.
pub const APPS_DIR_ABS_PATH: &'static str = "/var/local";

/// The directory of the server in the directory of the applications.
pub const APP_DIR: &'static str = "leaf";

/// The directory of the shard files in the directory of the server.
pub const CHUNKS_DIR: &'static str = "chunks";

/// The file of the saved state in the directory of the server.
pub const STATE_FILE: &'static str = "last_state.bin";

/// The directory of the shard files and the file of the saved state.
pub fn storage_paths() -> (r: (String, String))
    ensures
        r.0@ == join_path(join_path(APPS_DIR_ABS_PATH@, APP_DIR@), CHUNKS_DIR@),
        r.1@ == join_path(join_path(APPS_DIR_ABS_PATH@, APP_DIR@), STATE_FILE@),
{
    let base = join(APPS_DIR_ABS_PATH, APP_DIR);
    (join(base.as_str(), CHUNKS_DIR), join(base.as_str(), STATE_FILE))
}

// ---------------------------------------------------------------------------
// An association list without repeated keys
// ---------------------------------------------------------------------------
/// The plain values of a list of pairs of strings.
pub open spec fn pairs_view(entries: Seq<(String, String)>) -> Seq<(Seq<char>, Seq<char>)> {
    Seq::new(entries.len(), |i: int| (entries[i].0@, entries[i].1@))
}

fn find_key(entries: &Vec<(String, String)>, key: &String) -> (r: Option<usize>)
    ensures
        r matches Some(i) ==> i < entries@.len() && entries@[i as int].0@ == key@,
        r is None ==> forall|i: int| 0 <= i < entries@.len() ==> #[trigger] entries@[i].0@ != key@,
{
    let mut i: usize = 0;
    while i < entries.len()
        invariant
            i <= entries@.len(),
            forall|u: int| 0 <= u < i ==> #[trigger] entries@[u].0@ != key@,
        decreases entries@.len() - i,
    {
        if entries[i].0 == *key {
            return Some(i);
        }
        i += 1;
    }
    None
}

// ---------------------------------------------------------------------------
// The state that a server keeps across restarts
// ---------------------------------------------------------------------------
/// Which file keeps the shard of each hash, and the occupied space.
pub struct UdpServerStorageState {
    hashes: Vec<(String, String)>,
    size: usize,
}

impl UdpServerStorageState {
    #[verifier::type_invariant]
    spec fn no_repeated_hash(self) -> bool {
        keys_unique(pairs_view(self.hashes@))
    }

    /// The files of the shards, by hash.
    pub closed spec fn files(self) -> Map<Seq<char>, Seq<char>> {
        map_of(pairs_view(self.hashes@))
    }

    /// The occupied space.
    pub closed spec fn size(self) -> usize {
        self.size
    }

    /// The state of a server that keeps nothing.
    pub fn empty() -> (s: UdpServerStorageState)
        ensures
            s.files() == Map::<Seq<char>, Seq<char>>::empty(),
            s.size() == 0,
    {
        let s = UdpServerStorageState { hashes: Vec::new(), size: 0 };
        assert(pairs_view(s.hashes@) =~= Seq::<(Seq<char>, Seq<char>)>::empty());
        s
    }

    /// The state that a list of (hash, file) pairs describes; where a hash
    /// occurs twice the later pair counts.
    pub fn from_entries(entries: Vec<(String, String)>, size: usize) -> (s: UdpServerStorageState)
        ensures
            s.files() == map_of(pairs_view(entries@)),
            s.size() == size,
    {
        let mut s = UdpServerStorageState::empty();
        let mut i: usize = 0;
        while i < entries.len()
            invariant
                i <= entries@.len(),
                s.files() == map_of(pairs_view(entries@).subrange(0, i as int)),
                s.size() == 0,
            decreases entries@.len() - i,
        {
            let ghost before = s.files();
            s.insert(entries[i].0.clone(), entries[i].1.clone());
            proof {
                let p = pairs_view(entries@);
                assert(p.subrange(0, i + 1).drop_last() =~= p.subrange(0, i as int));
                assert(p.subrange(0, i + 1).last() == p[i as int]);
            }
            i += 1;
        }
        assert(pairs_view(entries@).subrange(0, entries@.len() as int) =~= pairs_view(entries@));
        proof {
            use_type_invariant(&s);
        }
        UdpServerStorageState { hashes: s.hashes, size }
    }

    /// The (hash, file) pairs of the state, each hash once.
    pub fn entries(&self) -> (e: Vec<(String, String)>)
        ensures
            map_of(pairs_view(e@)) == self.files(),
            keys_unique(pairs_view(e@)),
    {
        proof {
            use_type_invariant(self);
        }
        let mut e: Vec<(String, String)> = Vec::new();
        let mut i: usize = 0;
        while i < self.hashes.len()
            invariant
                i <= self.hashes@.len(),
                e@.len() == i,
                pairs_view(e@) == pairs_view(self.hashes@).subrange(0, i as int),
            decreases self.hashes@.len() - i,
        {
            let k = self.hashes[i].0.clone();
            let f = self.hashes[i].1.clone();
            assert(k@ == self.hashes@[i as int].0@ && f@ == self.hashes@[i as int].1@);
            e.push((k, f));
            i += 1;
            assert(pairs_view(e@) =~= pairs_view(self.hashes@).subrange(0, i as int));
        }
        assert(pairs_view(self.hashes@).subrange(0, i as int) =~= pairs_view(self.hashes@));
        e
    }

    /// The occupied space.
    pub fn get_size(&self) -> (s: usize)
        ensures
            s == self.size(),
    {
        self.size
    }

    fn contains(&self, hash: &String) -> (b: bool)
        ensures
            b == self.files().contains_key(hash@),
    {
        proof {
            use_type_invariant(self);
            lemma_map_of_unique(pairs_view(self.hashes@));
        }
        match find_key(&self.hashes, hash) {
            Some(i) => {
                assert(pairs_view(self.hashes@)[i as int].0 == hash@);
                assert(map_of(pairs_view(self.hashes@)).contains_key(pairs_view(self.hashes@)[i as int].0));
                true
            },
            None => {
                assert forall|i: int| 0 <= i < self.hashes@.len() implies #[trigger] pairs_view(
                    self.hashes@,
                )[i].0 != hash@ by {
                    assert(self.hashes@[i].0@ != hash@);
                }
                proof {
                    lemma_absent(pairs_view(self.hashes@), hash@);
                }
                false
            },
        }
    }

    fn grow(&mut self, len: usize)
        ensures
            final(self).files() == old(self).files(),
            final(self).size() == space_after_save(old(self).size(), len),
    {
        proof {
            use_type_invariant(&*self);
        }
        self.size = self.size.saturating_add(len);
    }

    fn shrink(&mut self, len: usize)
        ensures
            final(self).files() == old(self).files(),
            final(self).size() == space_after_release(old(self).size(), len),
    {
        proof {
            use_type_invariant(&*self);
        }
        self.size = self.size.saturating_sub(len);
    }

    fn insert(&mut self, hash: String, file: String)
        ensures
            final(self).files() == old(self).files().insert(hash@, file@),
            final(self).size() == old(self).size(),
    {
        proof {
            use_type_invariant(&*self);
        }
        let ghost before = pairs_view(self.hashes@);
        let mut entries: Vec<(String, String)> = Vec::new();
        std::mem::swap(&mut entries, &mut self.hashes);
        match find_key(&entries, &hash) {
            Some(i) => {
                let ghost hv = hash@;
                let ghost fv = file@;
                entries.set(i, (hash, file));
                proof {
                    assert(before[i as int].0 == hv);
                    lemma_set_existing(before, i as int, hv, fv);
                    assert(pairs_view(entries@) =~= before.update(i as int, (hv, fv)));
                }
            },
            None => {
                let ghost hv = hash@;
                let ghost fv = file@;
                entries.push((hash, file));
                proof {
                    assert forall|j: int| 0 <= j < before.len() implies #[trigger] before[j].0 != hv by {
                        assert(before[j].0 == old(self).hashes@[j].0@);
                    }
                    lemma_push_new(before, hv, fv);
                    assert(pairs_view(entries@) =~= before.push((hv, fv)));
                }
            },
        }
        self.hashes = entries;
    }

    fn remove(&mut self, hash: &String) -> (r: Option<String>)
        ensures
            r is Some == old(self).files().contains_key(hash@),
            r matches Some(f) ==> f@ == old(self).files()[hash@],
            final(self).files() == old(self).files().remove(hash@),
            final(self).size() == old(self).size(),
    {
        proof {
            use_type_invariant(&*self);
            lemma_map_of_unique(pairs_view(self.hashes@));
        }
        let ghost before = pairs_view(self.hashes@);
        let mut entries: Vec<(String, String)> = Vec::new();
        std::mem::swap(&mut entries, &mut self.hashes);
        let r = match find_key(&entries, hash) {
            Some(i) => {
                let ghost old_entries = entries@;
                let (_, file) = entries.swap_remove(i);
                proof {
                    assert(before[i as int].0 == hash@);
                    assert(map_of(before).contains_key(before[i as int].0));
                    lemma_swap_remove(before, i as int);
                    assert(pairs_view(entries@) =~= before.update(i as int, before.last()).drop_last());
                }
                Some(file)
            },
            None => {
                proof {
                    assert forall|j: int| 0 <= j < before.len() implies #[trigger] before[j].0 != hash@ by {
                        assert(before[j].0 == entries@[j].0@);
                    }
                    lemma_absent(before, hash@);
                }
                None
            },
        };
        self.hashes = entries;
        r
    }
}

/// Calls `Uuid::new_v4` and renders it with `to_string`, its hyphenated
/// form: 36 characters. The UUID is random.
#[verifier::external_body]
fn new_file_id() -> (id: String)
    ensures
        id@.len() == 36,
{
    Uuid::new_v4().to_string()
}

// ---------------------------------------------------------------------------
// The storage of a server
// ---------------------------------------------------------------------------
/// The storage of a server: the directory of the shard files and the index.
pub struct UdpServerStorage {
    path: String,
    state: UdpServerStorageState,
}

impl UdpServerStorage {
    /// The directory of the shard files.
    pub closed spec fn dir(self) -> Seq<char> {
        self.path@
    }

    /// The files of the kept shards, by hash.
    pub closed spec fn files(self) -> Map<Seq<char>, Seq<char>> {
        self.state.files()
    }

    /// The occupied space.
    pub closed spec fn size(self) -> usize {
        self.state.size()
    }

    /// A storage over a directory, with the state read back from the last
    /// run (or an empty one).
    pub fn new(storage_path: String, state: UdpServerStorageState) -> (s: UdpServerStorage)
        ensures
            s.dir() == storage_path@,
            s.files() == state.files(),
            s.size() == state.size(),
    {
        UdpServerStorage { path: storage_path, state }
    }

    /// The directory of the shard files.
    pub fn get_path(&self) -> (p: &String)
        ensures
            p@ == self.dir(),
    {
        &self.path
    }

    /// The occupied space.
    pub fn get_occupied_space(&self) -> (s: usize)
        ensures
            s == self.size(),
    {
        self.state.get_size()
    }

    /// Whether a shard of the hash is kept.
    pub fn is_hash_presented(&self, hash: &str) -> (b: bool)
        ensures
            b == self.files().contains_key(hash@),
    {
        let h = String::from_str(hash);
        self.state.contains(&h)
    }

    /// Whether there is room for another shard: the occupied space is below
    /// [`MAX_OCCUPIED_SPACE`].
    pub fn can_save(&self) -> (b: bool)
        ensures
            b == (self.size() < MAX_OCCUPIED_SPACE),
    {
        (self.get_occupied_space() as u64) < MAX_OCCUPIED_SPACE
    }

    /// The path of the shard file of an identifier: the identifier with
    /// [`SHARD_FILE_EXTENSION`], in the directory of the shard files.
    pub fn shard_file_path(&self, file_id: &str) -> (p: String)
        ensures
            p@ == join_path(self.dir(), file_id@ + SHARD_FILE_EXTENSION@),
    {
        let mut name = String::from_str(file_id);
        name.append(SHARD_FILE_EXTENSION);
        join(self.path.as_str(), name.as_str())
    }

    /// The path of the file that is to keep the shard of a hash, named by a
    /// fresh random UUID; a hash that is already kept is refused.
    pub fn prepare_save(&self, hash: &str) -> (r: Result<String, SavingDataError>)
        ensures
            (r is Err) == self.files().contains_key(hash@),
            r matches Ok(path) ==> exists|id: Seq<char>|
                id.len() == 36 && path@ == #[trigger] join_path(
                    self.dir(),
                    id + SHARD_FILE_EXTENSION@,
                ),
            r matches Err(e) ==> e.0@ == already_kept_message(hash@),
    {
        if self.is_hash_presented(hash) {
            let mut m = String::from_str("Hash ");
            m.append(hash);
            m.append(" already presents file");
            return Err(SavingDataError(m));
        }
        let id = new_file_id();
        Ok(self.shard_file_path(id.as_str()))
    }

    /// Records that the shard of a hash, `len` bytes long, is kept in a
    /// file: the file is indexed and the occupied space grows by `len`.
    pub fn commit_save(&mut self, hash: &str, file: String, len: usize)
        ensures
            final(self).files() == old(self).files().insert(hash@, file@),
            final(self).size() == space_after_save(old(self).size(), len),
            final(self).dir() == old(self).dir(),
    {
        self.state.insert(String::from_str(hash), file);
        self.state.grow(len);
    }

    /// Records that a shard file of `len` bytes was given up: the occupied
    /// space shrinks by `len`.
    pub fn release(&mut self, len: usize)
        ensures
            final(self).files() == old(self).files(),
            final(self).size() == space_after_release(old(self).size(), len),
            final(self).dir() == old(self).dir(),
    {
        self.state.shrink(len);
    }

    /// Gives up the shard of a hash: the index forgets it and the file that
    /// keeps it is returned, to be read and removed. A hash that is not kept
    /// is refused.
    pub fn take(&mut self, hash: &str) -> (r: Result<String, RetrievingDataError>)
        ensures
            (r is Ok) == old(self).files().contains_key(hash@),
            r matches Ok(file) ==> file@ == old(self).files()[hash@],
            r matches Err(e) ==> e.0@ == NO_SUCH_HASH_MESSAGE@,
            final(self).files() == old(self).files().remove(hash@),
            final(self).size() == old(self).size(),
            final(self).dir() == old(self).dir(),
    {
        let h = String::from_str(hash);
        match self.state.remove(&h) {
            Some(f) => Ok(f),
            None => Err(RetrievingDataError(String::from_str(NO_SUCH_HASH_MESSAGE))),
        }
    }

    /// The state to keep for the next run.
    pub fn into_state(self) -> (s: UdpServerStorageState)
        ensures
            s.files() == self.files(),
            s.size() == self.size(),
    {
        self.state
    }
}

/// The occupied space once a shard of `len` bytes is saved; it stays at the
/// largest `usize` rather than wrap.
pub open spec fn space_after_save(size: usize, len: usize) -> usize {
    if size + len > usize::MAX {
        usize::MAX
    } else {
        (size + len) as usize
    }
}

/// The occupied space once a shard of `len` bytes is given up; it stays at
/// zero rather than wrap.
pub open spec fn space_after_release(size: usize, len: usize) -> usize {
    if size < len {
        0
    } else {
        (size - len) as usize
    }
}

/// Saving a shard and giving it up again leaves the occupied space as it
/// was, where the sum fits in a `usize`.
pub proof fn lemma_space_after_save_and_release(size: usize, len: usize)
    requires
        size + len <= usize::MAX,
    ensures
        space_after_release(space_after_save(size, len), len) == size,
{
}

/// The message of the error for a hash that is kept already.
pub open spec fn already_kept_message(hash: Seq<char>) -> Seq<char> {
    "Hash "@ + hash + " already presents file"@
}

/// What is taken back of the shard of a hash is the file it was last saved
/// in; once taken, the hash is no longer kept and another shard of it may be
/// saved.
pub proof fn lemma_take_after_save(files: Map<Seq<char>, Seq<char>>, hash: Seq<char>, file: Seq<char>)
    ensures
        files.insert(hash, file).contains_key(hash),
        files.insert(hash, file)[hash] == file,
        !files.insert(hash, file).remove(hash).contains_key(hash),
        files.insert(hash, file).remove(hash) == files.remove(hash),
{
    assert(files.insert(hash, file).remove(hash) =~= files.remove(hash));
}

/// The files by hash after a save of `file` under `hash`: a hash that is
/// kept already is refused and nothing changes.
pub open spec fn files_after_save(
    files: Map<Seq<char>, Seq<char>>,
    hash: Seq<char>,
    file: Seq<char>,
) -> Map<Seq<char>, Seq<char>> {
    if files.contains_key(hash) {
        files
    } else {
        files.insert(hash, file)
    }
}

/// The files by hash after a sequence of saves and takes, each a triple of
/// whether it saves, the hash, and the file a save keeps the shard in.
pub open spec fn files_after(
    files: Map<Seq<char>, Seq<char>>,
    ops: Seq<(bool, Seq<char>, Seq<char>)>,
) -> Map<Seq<char>, Seq<char>>
    decreases ops.len(),
{
    if ops.len() == 0 {
        files
    } else if ops.last().0 {
        files_after_save(files_after(files, ops.drop_last()), ops.last().1, ops.last().2)
    } else {
        files_after(files, ops.drop_last()).remove(ops.last().1)
    }
}

/// Whether some save of a hash comes after every take of it.
pub open spec fn saved_since_taken(ops: Seq<(bool, Seq<char>, Seq<char>)>, hash: Seq<char>) -> bool {
    exists|i: int|
        0 <= i < ops.len() && (#[trigger] ops[i]).0 && ops[i].1 == hash && forall|j: int|
            i < j < ops.len() ==> !(!(#[trigger] ops[j]).0 && ops[j].1 == hash)
}

/// A hash that was not kept is kept after a sequence of saves and takes
/// exactly when some save of it came after every take of it.
pub proof fn lemma_kept_after_operations(
    files: Map<Seq<char>, Seq<char>>,
    ops: Seq<(bool, Seq<char>, Seq<char>)>,
    hash: Seq<char>,
)
    requires
        !files.contains_key(hash),
    ensures
        files_after(files, ops).contains_key(hash) == saved_since_taken(ops, hash),
    decreases ops.len(),
{
    if ops.len() > 0 {
        let prev = ops.drop_last();
        let last = ops.last();
        let n = ops.len() - 1;
        lemma_kept_after_operations(files, prev, hash);
        assert(ops[n] == last);
        if last.1 == hash {
            if last.0 {
                assert(saved_since_taken(ops, hash)) by {
                    assert(ops[n].0 && ops[n].1 == hash);
                }
            } else {
                if saved_since_taken(ops, hash) {
                    let i = choose|i: int|
                        0 <= i < ops.len() && (#[trigger] ops[i]).0 && ops[i].1 == hash && forall|
                            j: int,
                        | i < j < ops.len() ==> !(!(#[trigger] ops[j]).0 && ops[j].1 == hash);
                    assert(i != n);
                    assert(!(!ops[n].0 && ops[n].1 == hash));
                }
            }
        } else {
            if saved_since_taken(ops, hash) {
                let i = choose|i: int|
                    0 <= i < ops.len() && (#[trigger] ops[i]).0 && ops[i].1 == hash && forall|j: int|
                        i < j < ops.len() ==> !(!(#[trigger] ops[j]).0 && ops[j].1 == hash);
                assert(i < n);
                assert(prev[i] == ops[i]);
                assert forall|j: int| i < j < prev.len() implies !(!(#[trigger] prev[j]).0 && prev[j].1
                    == hash) by {
                    assert(prev[j] == ops[j]);
                }
                assert(saved_since_taken(prev, hash));
            }
            if saved_since_taken(prev, hash) {
                let i = choose|i: int|
                    0 <= i < prev.len() && (#[trigger] prev[i]).0 && prev[i].1 == hash && forall|
                        j: int,
                    | i < j < prev.len() ==> !(!(#[trigger] prev[j]).0 && prev[j].1 == hash);
                assert(ops[i] == prev[i]);
                assert forall|j: int| i < j < ops.len() implies !(!(#[trigger] ops[j]).0 && ops[j].1
                    == hash) by {
                    if j < n {
                        assert(prev[j] == ops[j]);
                    }
                }
                assert(saved_since_taken(ops, hash));
            }
        }
    }
}

/// While a hash is kept, another save of it is refused and changes nothing,
/// and a take of it gives the file of the shard and forgets the hash.
pub proof fn lemma_kept_hash(files: Map<Seq<char>, Seq<char>>, hash: Seq<char>, file: Seq<char>)
    requires
        files.contains_key(hash),
    ensures
        files_after_save(files, hash, file) == files,
        !files.remove(hash).contains_key(hash),
{
}

// ---------------------------------------------------------------------------
// Errors
// ---------------------------------------------------------------------------
/// A shard could not be saved.
#[derive(Debug)]
pub struct SavingDataError(pub String);

/// A shard could not be retrieved.
#[derive(Debug)]
pub struct RetrievingDataError(pub String);

} // verus!
