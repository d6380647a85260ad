//! An in-memory record of file writes.
//!
//! The configuration-application engine writes files by recording them here;
//! the surrounding program flushes the recorded writes to the real file
//! system. The store's view is the file-system fragment the writes leave
//! behind: a map from each written path to the content of the last write at
//! that path (later writes win).

use vstd::prelude::*;

verus! {

/// One recorded write: a full path and the text written there.
pub struct FileEntry {
    pub path: String,
    pub content: String,
}

/// An ordered record of file writes.
pub struct FileStore {
    entries: Vec<FileEntry>,
}

/// The map that a sequence of writes leaves behind: later writes win.
pub open spec fn writes_map(s: Seq<FileEntry>) -> Map<Seq<char>, Seq<char>>
    decreases s.len(),
{
    if s.len() == 0 {
        Map::empty()
    } else {
        writes_map(s.drop_last()).insert(s.last().path@, s.last().content@)
    }
}

impl View for FileStore {
    type V = Map<Seq<char>, Seq<char>>;

    open spec fn view(&self) -> Map<Seq<char>, Seq<char>> {
        writes_map(self.log())
    }
}

/// A path is in the map exactly when some write used it.
proof fn lemma_writes_map_key(s: Seq<FileEntry>, p: Seq<char>)
    ensures
        writes_map(s).contains_key(p) <==> (exists|i: int|
            0 <= i < s.len() && #[trigger] s[i].path@ == p),
    decreases s.len(),
{
    if s.len() > 0 {
        lemma_writes_map_key(s.drop_last(), p);
        if s.last().path@ == p {
            assert(s[s.len() - 1].path@ == p);
        } else {
            assert forall|i: int| 0 <= i < s.len() && #[trigger] s[i].path@ == p implies (
            exists|j: int| 0 <= j < s.drop_last().len() && #[trigger] s.drop_last()[j].path@ == p) by {
                assert(s.drop_last()[i].path@ == p);
            }
        }
    }
}

/// The map holds the content of the last write at each path.
proof fn lemma_writes_map_last(s: Seq<FileEntry>, i: int)
    requires
        0 <= i < s.len(),
        forall|j: int| i < j < s.len() ==> (#[trigger] s[j].path@) != s[i].path@,
    ensures
        writes_map(s).contains_key(s[i].path@),
        writes_map(s)[s[i].path@] == s[i].content@,
    decreases s.len(),
{
    if i == s.len() - 1 {
    } else {
        assert(s.drop_last()[i] == s[i]);
        lemma_writes_map_last(s.drop_last(), i);
        assert(s[s.len() - 1].path@ != s[i].path@);
    }
}

impl FileStore {
    /// The writes recorded so far, in order.
    pub closed spec fn log(&self) -> Seq<FileEntry> {
        self.entries@
    }

    /// An empty store: nothing written yet.
    pub fn new() -> (r: FileStore)
        ensures
            r@ == Map::<Seq<char>, Seq<char>>::empty(),
            r.log() == Seq::<FileEntry>::empty(),
    {
        let r = FileStore { entries: Vec::new() };
        proof {
            assert(r.log() =~= Seq::<FileEntry>::empty());
        }
        r
    }

    /// Record a write of `content` at `path`, overwriting any earlier write
    /// at the same path.
    pub fn write(&mut self, path: String, content: String)
        ensures
            final(self)@ == old(self)@.insert(path@, content@),
            final(self).log() == old(self).log().push(FileEntry { path, content }),
    {
        let ghost pre = self.entries@;
        self.entries.push(FileEntry { path, content });
        proof {
            assert(self.entries@.drop_last() =~= pre);
        }
    }

    /// How many writes have been recorded.
    pub fn num_entries(&self) -> (n: usize)
        ensures
            n == self.log().len(),
    {
        self.entries.len()
    }

    /// The path of the `i`th recorded write.
    pub fn entry_path(&self, i: usize) -> (r: String)
        requires
            i < self.log().len(),
        ensures
            r == self.log()[i as int].path,
    {
        self.entries[i].path.clone()
    }

    /// The content of the `i`th recorded write.
    pub fn entry_content(&self, i: usize) -> (r: String)
        requires
            i < self.log().len(),
        ensures
            r == self.log()[i as int].content,
    {
        self.entries[i].content.clone()
    }

    /// The content the store holds at `path`: the last write there, if any.
    pub fn lookup(&self, path: &str) -> (r: Option<String>)
        ensures
            match r {
                Some(c) => self@.contains_key(path@) && c@ == self@[path@],
                None => !self@.contains_key(path@),
            },
    {
        let n = self.entries.len();
        let mut i: usize = n;
        while i > 0
            invariant
                i <= n,
                n == self.log().len(),
                forall|j: int| i <= j < n ==> (#[trigger] self.log()[j].path@) != path@,
            decreases i,
        {
            i = i - 1;
            if crate::catalog::str_eq(self.entries[i].path.as_str(), path) {
                proof {
                    lemma_writes_map_last(self.log(), i as int);
                }
                return Some(self.entries[i].content.clone());
            }
        }
        proof {
            lemma_writes_map_key(self.log(), path@);
        }
        None
    }
}

} // verus!
