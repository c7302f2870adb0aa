//! The command tree as it was found on disk: which paths below the command
//! root are directories and which are files.

use crate::transcript::texts_of;
use vstd::prelude::*;

verus! {

/// What stands at a path.
#[derive(Clone, Copy, Debug, PartialEq, Eq, Structural)]
pub enum EntryKind {
    /// A directory: a word that more words may follow.
    Directory,
    /// A regular file.
    File,
    /// Something that is neither a directory nor a regular file.
    Other,
}

/// One path below the command root, as its segments from the root down, with
/// what stands there.
pub struct Entry {
    path: Vec<String>,
    kind: EntryKind,
}

/// The paths that `entries` tell of, each with its kind; where a path was
/// entered twice the later entry holds.
pub closed spec fn listing_of(entries: Seq<Entry>) -> Map<Seq<Seq<char>>, EntryKind>
    decreases entries.len(),
{
    if entries.len() == 0 {
        Map::empty()
    } else {
        listing_of(entries.drop_last()).insert(texts_of(entries.last().path@), entries.last().kind)
    }
}

/// A listing of the command tree: the name of its root directory, and every
/// path below it that exists, keyed by the segments from the root down.
pub struct CommandIndex {
    root: String,
    entries: Vec<Entry>,
}

impl View for CommandIndex {
    type V = Map<Seq<Seq<char>>, EntryKind>;

    closed spec fn view(&self) -> Map<Seq<Seq<char>>, EntryKind> {
        listing_of(self.entries@)
    }
}

/// Whether `path` is `dir` followed by `name`.
fn is_child(path: &Vec<String>, dir: &Vec<String>, name: &String) -> (same: bool)
    ensures
        same == (texts_of(path@) == texts_of(dir@).push(name@)),
{
    let ghost wanted = texts_of(dir@).push(name@);
    let length = path.len();
    if length == 0 || length - 1 != dir.len() {
        assert(texts_of(path@).len() != wanted.len());
        return false;
    }
    let mut i: usize = 0;
    while i < dir.len()
        invariant
            i <= dir.len(),
            path.len() == dir.len() + 1,
            wanted == texts_of(dir@).push(name@),
            forall|k: int| 0 <= k < i ==> #[trigger] texts_of(path@)[k] == wanted[k],
        decreases dir.len() - i,
    {
        if path[i] != dir[i] {
            assert(texts_of(path@)[i as int] != wanted[i as int]);
            return false;
        }
        i = i + 1;
    }
    if path[i] != *name {
        assert(texts_of(path@)[i as int] != wanted[i as int]);
        return false;
    }
    assert(texts_of(path@) =~= wanted);
    true
}

impl CommandIndex {
    /// The name of the root directory.
    pub closed spec fn root_text(&self) -> Seq<char> {
        self.root@
    }

    /// A listing of an empty command tree under the root `root`.
    pub fn new(root: String) -> (index: CommandIndex)
        ensures
            index@ == Map::<Seq<Seq<char>>, EntryKind>::empty(),
            index.root_text() == root@,
    {
        CommandIndex { root, entries: Vec::new() }
    }

    /// Records that `kind` stands at `path`, in place of what was recorded
    /// there before.
    pub fn insert(&mut self, path: Vec<String>, kind: EntryKind)
        ensures
            final(self)@ == old(self)@.insert(texts_of(path@), kind),
            final(self).root_text() == old(self).root_text(),
    {
        let ghost before = self.entries@;
        self.entries.push(Entry { path, kind });
        assert(self.entries@.drop_last() =~= before);
    }

    /// The name of the root directory.
    pub fn root(&self) -> (root: &String)
        ensures
            root@ == self.root_text(),
    {
        &self.root
    }

    /// What stands at `name` inside the directory `dir`, if anything.
    pub fn lookup(&self, dir: &Vec<String>, name: &String) -> (kind: Option<EntryKind>)
        ensures
            kind == if self@.contains_key(texts_of(dir@).push(name@)) {
                Some(self@[texts_of(dir@).push(name@)])
            } else {
                None
            },
    {
        let ghost wanted = texts_of(dir@).push(name@);
        let mut i: usize = self.entries.len();
        assert(self.entries@.take(i as int) =~= self.entries@);
        while i > 0
            invariant
                i <= self.entries.len(),
                wanted == texts_of(dir@).push(name@),
                self@.contains_key(wanted) == listing_of(self.entries@.take(i as int)).contains_key(
                    wanted,
                ),
                self@.contains_key(wanted) ==> self@[wanted] == listing_of(
                    self.entries@.take(i as int),
                )[wanted],
            decreases i,
        {
            i = i - 1;
            assert(self.entries@.take(i + 1).drop_last() =~= self.entries@.take(i as int));
            if is_child(&self.entries[i].path, dir, name) {
                return Some(self.entries[i].kind);
            }
        }
        None
    }
}

} // verus!
