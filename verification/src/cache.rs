//! The record of scripts already handled: for each script path, the
//! modification time and size of the file when it was handled and whether
//! it was encrypted (or else decrypted).

use vstd::prelude::*;
use crate::path::{Comp, ScriptPath};

verus! {

/// What is remembered of one handled script.
#[derive(Clone, Copy, Debug, PartialEq, Eq, Structural)]
pub struct FileCache {
    /// The file's last write time when it was handled.
    pub mtime: u64,
    /// The file's size when it was handled.
    pub size: u64,
    /// Whether the script was encrypted (true) or decrypted (false).
    pub encrypt: bool,
}

/// The cache of handled scripts, with the format version it is stored under
/// and the file it is stored in.
pub struct Cache {
    version: u32,
    files: Vec<(ScriptPath, FileCache)>,
    cache_path: String,
}

/// The map that a list of entries stands for; a later entry for a path
/// replaces an earlier one.
pub open spec fn entries_map(entries: Seq<(ScriptPath, FileCache)>) -> Map<Seq<Comp>, FileCache>
    decreases entries.len(),
{
    if entries.len() == 0 {
        Map::empty()
    } else {
        entries_map(entries.drop_last()).insert(entries.last().0@, entries.last().1)
    }
}

/// No two entries are for the same path.
pub open spec fn keys_distinct(entries: Seq<(ScriptPath, FileCache)>) -> bool {
    forall|i: int, j: int|
        0 <= i < entries.len() && 0 <= j < entries.len() && i != j ==> entries[i].0@ != entries[j].0@
}

/// With distinct keys, the map holds exactly the entries.
proof fn lemma_entries_map(entries: Seq<(ScriptPath, FileCache)>)
    requires
        keys_distinct(entries),
    ensures
        forall|k: Seq<Comp>|
            #[trigger] entries_map(entries).contains_key(k) <==> exists|i: int|
                0 <= i < entries.len() && entries[i].0@ == k,
        forall|i: int|
            0 <= i < entries.len() ==> #[trigger] entries_map(entries)[entries[i].0@] == entries[i].1,
    decreases entries.len(),
{
    if entries.len() > 0 {
        let prefix = entries.drop_last();
        let n = entries.len() - 1;
        assert forall|i: int, j: int|
            0 <= i < prefix.len() && 0 <= j < prefix.len() && i != j implies prefix[i].0@
            != prefix[j].0@ by {
            assert(prefix[i] == entries[i] && prefix[j] == entries[j]);
        }
        lemma_entries_map(prefix);
        assert(entries.last() == entries[n]);
        assert(entries_map(entries) == entries_map(prefix).insert(entries[n].0@, entries[n].1));
        assert forall|k: Seq<Comp>|
            #[trigger] entries_map(entries).contains_key(k) <==> exists|i: int|
                0 <= i < entries.len() && entries[i].0@ == k by {
            if entries_map(entries).contains_key(k) && k != entries[n].0@ {
                assert(entries_map(prefix).contains_key(k));
                let i = choose|i: int| 0 <= i < prefix.len() && prefix[i].0@ == k;
                assert(prefix[i] == entries[i]);
            }
            if exists|i: int| 0 <= i < entries.len() && entries[i].0@ == k {
                let i = choose|i: int| 0 <= i < entries.len() && entries[i].0@ == k;
                if i < n {
                    assert(prefix[i] == entries[i]);
                    assert(entries_map(prefix).contains_key(prefix[i].0@));
                }
            }
        }
        assert forall|i: int| 0 <= i < entries.len() implies #[trigger] entries_map(
            entries,
        )[entries[i].0@] == entries[i].1 by {
            if i < n {
                assert(prefix[i] == entries[i]);
                assert(entries[i].0@ != entries[n].0@);
                assert(entries_map(prefix)[prefix[i].0@] == prefix[i].1);
            }
        }
    }
}

/// What a lookup of `path` for a file with last write time `mtime` and size
/// `size` finds in the cache `m`: the entry, when it was made for a file of
/// that time and size.
pub open spec fn cache_lookup(m: Map<Seq<Comp>, FileCache>, path: Seq<Comp>, mtime: u64, size: u64) -> Option<
    FileCache,
> {
    if m.contains_key(path) && m[path].mtime == mtime && m[path].size == size {
        Some(m[path])
    } else {
        None
    }
}

/// A lookup right after a script was recorded finds the record, for the
/// same modification time and size.
pub proof fn law_lookup_after_update(
    m: Map<Seq<Comp>, FileCache>,
    path: Seq<Comp>,
    mtime: u64,
    size: u64,
    encrypt: bool,
)
    ensures
        cache_lookup(m.insert(path, FileCache { mtime, size, encrypt }), path, mtime, size) == Some(
            FileCache { mtime, size, encrypt },
        ),
{
}

/// A record is not found for a file whose modification time or size has
/// changed since it was recorded.
pub proof fn law_changed_file_misses(
    m: Map<Seq<Comp>, FileCache>,
    path: Seq<Comp>,
    mtime: u64,
    size: u64,
    encrypt: bool,
    new_mtime: u64,
    new_size: u64,
)
    requires
        new_mtime != mtime || new_size != size,
    ensures
        cache_lookup(m.insert(path, FileCache { mtime, size, encrypt }), path, new_mtime, new_size)
            is None,
{
}

/// Recording one script leaves the lookups of every other script as they were.
pub proof fn law_update_keeps_others(
    m: Map<Seq<Comp>, FileCache>,
    path: Seq<Comp>,
    other: Seq<Comp>,
    mtime: u64,
    size: u64,
    encrypt: bool,
    other_mtime: u64,
    other_size: u64,
)
    requires
        other != path,
    ensures
        cache_lookup(m.insert(path, FileCache { mtime, size, encrypt }), other, other_mtime, other_size)
            == cache_lookup(m, other, other_mtime, other_size),
{
}

/// The map that stored entries under format version `version` give: the
/// entries' map for the current version, nothing for any other.
pub open spec fn loaded_map(version: u32, entries: Seq<(ScriptPath, FileCache)>) -> Map<
    Seq<Comp>,
    FileCache,
> {
    if version == 1 {
        entries_map(entries)
    } else {
        Map::empty()
    }
}

/// A stored cache reads back unchanged: the version and the entries that a
/// cache hands out to be stored (`Cache::version`, which is the current
/// version for every cache, and `Cache::entries`), given back to
/// `Cache::from_file`, give the cache's map again.
pub proof fn law_stored_cache_reads_back(cache: Cache, version: u32, entries: Seq<(ScriptPath, FileCache)>)
    requires
        version == Cache::CACHE_VERSION,
        version == cache.spec_version(),
        entries_map(entries) == cache@,
    ensures
        loaded_map(version, entries) == cache@,
{
}

impl View for Cache {
    type V = Map<Seq<Comp>, FileCache>;

    closed spec fn view(&self) -> Map<Seq<Comp>, FileCache> {
        entries_map(self.files@)
    }
}

impl Cache {
    /// The format version this library writes and reads.
    pub const CACHE_VERSION: u32 = 1;

    #[verifier::type_invariant]
    closed spec fn well_formed(self) -> bool {
        &&& keys_distinct(self.files@)
        &&& self.version == Self::CACHE_VERSION
    }

    /// The format version the cache is stored under.
    pub closed spec fn spec_version(&self) -> u32 {
        self.version
    }

    /// The file the cache is stored in.
    pub closed spec fn spec_cache_path(&self) -> Seq<char> {
        self.cache_path@
    }

    /// An empty cache, stored in `cache_path`.
    pub fn new(cache_path: String) -> (cache: Self)
        ensures
            cache@ == Map::<Seq<Comp>, FileCache>::empty(),
            cache.spec_version() == Self::CACHE_VERSION,
            cache.spec_cache_path() == cache_path@,
    {
        let cache = Cache { version: Self::CACHE_VERSION, files: Vec::new(), cache_path };
        assert(cache.files@ =~= Seq::<(ScriptPath, FileCache)>::empty());
        cache
    }

    /// The cache as read back from its file: `stored` holds the version and
    /// entries found there, or `None` when the file could not be read or
    /// parsed. Entries of the current version are taken (a later entry for a
    /// path replacing an earlier one); anything else gives an empty cache.
    pub fn from_file(cache_path: String, stored: Option<(u32, Vec<(ScriptPath, FileCache)>)>) -> (cache: Self)
        ensures
            cache.spec_version() == Self::CACHE_VERSION,
            cache.spec_cache_path() == cache_path@,
            cache@ == match stored {
                Some((version, entries)) => loaded_map(version, entries@),
                None => Map::empty(),
            },
    {
        let mut cache = Cache::new(cache_path);
        match stored {
            Some((version, entries)) => {
                if version != Self::CACHE_VERSION {
                    return cache;
                }
                let ghost all = entries@;
                let mut entries = entries;
                let mut rest: Vec<(ScriptPath, FileCache)> = Vec::new();
                // Take the entries from the back, then insert them in their order.
                while entries.len() > 0
                    invariant
                        all == entries@ + rest@.reverse(),
                    decreases entries@.len(),
                {
                    let entry = entries.pop().unwrap();
                    proof {
                        assert(all =~= entries@ + rest@.push(entry).reverse());
                    }
                    rest.push(entry);
                }
                assert(all =~= rest@.reverse());
                while rest.len() > 0
                    invariant
                        cache@ == entries_map(all.take(all.len() - rest@.len())),
                        all == all.take(all.len() - rest@.len()) + rest@.reverse(),
                        rest@.len() <= all.len(),
                        cache.spec_version() == Self::CACHE_VERSION,
                        cache.spec_cache_path() == cache_path@,
                    decreases rest@.len(),
                {
                    let ghost done = all.take(all.len() - rest@.len());
                    let (path, entry) = rest.pop().unwrap();
                    proof {
                        let k = all.len() - rest@.len() - 1;
                        assert(all[k] == (path, entry));
                        assert(all.take(k + 1).drop_last() =~= done);
                        assert(all =~= all.take(k + 1) + rest@.reverse());
                    }
                    cache.update(path, entry.mtime, entry.size, entry.encrypt);
                }
                assert(all.take(all.len() as int) =~= all);
                cache
            },
            None => cache,
        }
    }

    /// The cached entry for `path`, when there is one and it was made for a
    /// file with last write time `mtime` and size `size`.
    pub fn get_and_check(&self, path: &ScriptPath, mtime: u64, size: u64) -> (res: Option<FileCache>)
        ensures
            res == cache_lookup(self@, path@, mtime, size),
    {
        proof {
            use_type_invariant(self);
            lemma_entries_map(self.files@);
        }
        let mut i: usize = 0;
        while i < self.files.len()
            invariant
                i <= self.files@.len(),
                forall|j: int| 0 <= j < i ==> self.files@[j].0@ != path@,
            decreases self.files@.len() - i,
        {
            if self.files[i].0.same(path) {
                let entry = self.files[i].1;
                proof {
                    use_type_invariant(self);
                    lemma_entries_map(self.files@);
                }
                assert(self@[path@] == entry);
                if entry.mtime == mtime && entry.size == size {
                    return Some(entry);
                } else {
                    return None;
                }
            }
            i = i + 1;
        }
        proof {
            use_type_invariant(self);
            lemma_entries_map(self.files@);
        }
        assert(!self@.contains_key(path@));
        None
    }

    /// Records that the script at `path` was handled when its file had last
    /// write time `mtime` and size `size`, and whether it was encrypted.
    pub fn update(&mut self, path: ScriptPath, mtime: u64, size: u64, encrypt: bool)
        ensures
            final(self)@ == old(self)@.insert(path@, FileCache { mtime, size, encrypt }),
            final(self).spec_version() == old(self).spec_version(),
            final(self).spec_cache_path() == old(self).spec_cache_path(),
    {
        proof {
            use_type_invariant(&*self);
        }
        let entry = FileCache { mtime, size, encrypt };
        let mut files: Vec<(ScriptPath, FileCache)> = Vec::new();
        std::mem::swap(&mut files, &mut self.files);
        let ghost before = files@;
        let mut i: usize = 0;
        while i < files.len() && !files[i].0.same(&path)
            invariant
                files@ == before,
                i <= files@.len(),
                forall|j: int| 0 <= j < i ==> files@[j].0@ != path@,
            decreases files@.len() - i,
        {
            i = i + 1;
        }
        proof {
            lemma_entries_map(before);
        }
        if i < files.len() {
            let ghost at = i as int;
            assert(before[at].0@ == path@);
            files.set(i, (path, entry));
            proof {
                assert forall|a: int, b: int|
                    0 <= a < files@.len() && 0 <= b < files@.len() && a != b implies files@[a].0@
                    != files@[b].0@ by {
                    assert(files@[a].0@ == before[a].0@);
                    assert(files@[b].0@ == before[b].0@);
                }
                lemma_entries_map(files@);
                let m = entries_map(files@);
                let m0 = entries_map(before).insert(path@, entry);
                assert forall|k: Seq<Comp>| m.contains_key(k) <==> m0.contains_key(k) by {
                    if m.contains_key(k) {
                        let j = choose|j: int| 0 <= j < files@.len() && files@[j].0@ == k;
                        assert(before[j].0@ == k);
                        assert(entries_map(before).contains_key(before[j].0@));
                    }
                    if m0.contains_key(k) && k != path@ {
                        let j = choose|j: int| 0 <= j < before.len() && before[j].0@ == k;
                        assert(files@[j].0@ == k);
                        assert(m.contains_key(files@[j].0@));
                    }
                    if k == path@ {
                        assert(m.contains_key(files@[at].0@));
                    }
                }
                assert forall|k: Seq<Comp>| m.contains_key(k) implies m[k] == m0[k] by {
                    let j = choose|j: int| 0 <= j < files@.len() && files@[j].0@ == k;
                    assert(m[files@[j].0@] == files@[j].1);
                    if j != at {
                        assert(files@[j] == before[j]);
                        assert(entries_map(before)[before[j].0@] == before[j].1);
                    }
                }
                assert(m =~= m0);
            }
        } else {
            files.push((path, entry));
            proof {
                assert(files@.drop_last() =~= before);
                assert(files@.last() == (path, entry));
                assert forall|a: int, b: int|
                    0 <= a < files@.len() && 0 <= b < files@.len() && a != b implies files@[a].0@
                    != files@[b].0@ by {
                    if a < before.len() && b < before.len() {
                        assert(files@[a] == before[a] && files@[b] == before[b]);
                    } else if a < before.len() {
                        assert(files@[a] == before[a]);
                    } else {
                        assert(files@[b] == before[b]);
                    }
                }
            }
        }
        self.files = files;
    }

    /// The format version the cache is stored under: the current one.
    pub fn version(&self) -> (version: u32)
        ensures
            version == self.spec_version(),
            version == Self::CACHE_VERSION,
    {
        proof {
            use_type_invariant(self);
        }
        self.version
    }

    /// The file the cache is stored in.
    pub fn cache_path(&self) -> (path: &String)
        ensures
            path@ == self.spec_cache_path(),
    {
        &self.cache_path
    }

    /// The entries of the cache, one for each path.
    pub fn entries(&self) -> (entries: &Vec<(ScriptPath, FileCache)>)
        ensures
            entries_map(entries@) == self@,
            keys_distinct(entries@),
    {
        proof {
            use_type_invariant(self);
        }
        &self.files
    }
}

} // verus!
