//! The durable memory of what was last applied: a mapping from path to
//! `EntryRecord`, kept in the chronological order records were first applied.
//!
//! The order matters: a directory's children are always recorded after the
//! directory itself, and the deletion phase walks the records in reverse so
//! that children are removed before their parent.

use vstd::prelude::*;

use crate::record::EntryRecord;
use crate::record::RecordV;

verus! {

/// At most one record per path.
pub open spec fn wf_tree(s: Seq<RecordV>) -> bool {
    forall|i: int, j: int| 0 <= i < j < s.len() ==> s[i].path != s[j].path
}

/// Whether some record in `s` carries the path `p`.
pub open spec fn has_path(s: Seq<RecordV>, p: Seq<char>) -> bool {
    exists|i: int| 0 <= i < s.len() && s[i].path == p
}

/// The position of the record carrying `p`.
pub open spec fn path_index(s: Seq<RecordV>, p: Seq<char>) -> int {
    choose|i: int| 0 <= i < s.len() && s[i].path == p
}

/// The record carrying `p`.
pub open spec fn record_of(s: Seq<RecordV>, p: Seq<char>) -> RecordV {
    s[path_index(s, p)]
}

/// In a well-formed tree a known position for a path is the only one.
pub proof fn lemma_path_index_unique(s: Seq<RecordV>, i: int)
    requires
        wf_tree(s),
        0 <= i < s.len(),
    ensures
        has_path(s, s[i].path),
        path_index(s, s[i].path) == i,
        record_of(s, s[i].path) == s[i],
{
    assert(has_path(s, s[i].path));
    let j = path_index(s, s[i].path);
    assert(0 <= j < s.len() && s[j].path == s[i].path);
    if i < j {
        assert(s[i].path != s[j].path);
    } else if j < i {
        assert(s[j].path != s[i].path);
    }
}

/// The path → record mapping, in first-applied order.
#[derive(Debug)]
pub struct FileTree {
    pub entries: Vec<EntryRecord>,
}

impl View for FileTree {
    type V = Seq<RecordV>;

    open spec fn view(&self) -> Seq<RecordV> {
        self.entries@.map_values(|r: EntryRecord| r@)
    }
}

impl FileTree {
    /// An empty tree, for the first run.
    pub fn new() -> (t: FileTree)
        ensures
            t@ == Seq::<RecordV>::empty(),
            wf_tree(t@),
    {
        let t = FileTree { entries: Vec::new() };
        proof {
            assert(t@ =~= Seq::<RecordV>::empty());
        }
        t
    }

    /// A copy of the tree, equal record for record.
    pub fn copy(&self) -> (t: FileTree)
        ensures
            t@ == self@,
    {
        let mut entries: Vec<EntryRecord> = Vec::new();
        let n = self.entries.len();
        let mut i: usize = 0;
        while i < n
            invariant
                n == self.entries.len(),
                i <= n,
                entries@.len() == i,
                forall|j: int| 0 <= j < i ==> entries@[j]@ == self.entries@[j]@,
            decreases n - i,
        {
            entries.push(self.entries[i].duplicate());
            i += 1;
        }
        let t = FileTree { entries };
        proof {
            assert forall|j: int| 0 <= j < n implies t@[j] == self@[j] by {
                assert(t.entries@[j]@ == self.entries@[j]@);
            }
            assert(t@ =~= self@);
        }
        t
    }

    /// The position of the record for `path`, if one is tracked.
    pub fn find(&self, path: &String) -> (r: Option<usize>)
        ensures
            match r {
                Some(i) => i < self@.len() && self@[i as int].path == path@,
                None => !has_path(self@, path@),
            },
    {
        let n = self.entries.len();
        let mut i: usize = 0;
        while i < n
            invariant
                n == self.entries.len(),
                i <= n,
                forall|j: int| 0 <= j < i ==> self@[j].path != path@,
            decreases n - i,
        {
            if self.entries[i].path == *path {
                return Some(i);
            }
            i += 1;
        }
        None
    }
}

} // verus!
