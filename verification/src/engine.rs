//! The diff/apply engine.
//!
//! One pass consumes the archive entry stream an entry at a time, compares
//! each accepted entry against the prior tree, updates the tree, and hands
//! back the filesystem mutations the caller must perform. After the stream is
//! exhausted, `finish` computes the deletions: every tracked, non-ignored
//! path that was not seen in this pass, in reverse of first-applied order so
//! that children are removed before their parent directory.
//!
//! The engine never touches the filesystem itself: every write or removal is
//! returned as a `Mutation` value for an unverified shell to perform.

use vstd::prelude::*;
use vstd::utf8::{decode_utf8, valid_utf8};

use crate::filter::{is_absolute, is_ignored, is_root_marker, path_absolute, path_ignored};
use crate::kinds::{ArchiveKind, EntryKind, supported_kind};
use crate::record::{
    EntryRecord, RecordV, TarplyError, built_record, payload_of, same_identity,
};
use crate::state::{FileTree, has_path, lemma_path_index_unique, path_index, wf_tree};
use crate::text::bytes_to_string;

verus! {

/// The mathematical content of a `Mutation`.
#[verifier::ext_equal]
pub enum MutationV {
    WriteFile { path: Seq<char>, content: Seq<u8> },
    MakeHardLink { original: Seq<char>, link: Seq<char> },
    MakeSymlink { link: Seq<char>, target: Seq<char> },
    MakeDir { path: Seq<char> },
    Chmod { path: Seq<char>, perm: u32 },
    RemoveFile { path: Seq<char> },
    RemoveDir { path: Seq<char> },
}

/// One filesystem operation the caller must perform.
///
/// `WriteFile`, `Chmod`, `RemoveFile` and `RemoveDir` failures are fatal;
/// `MakeHardLink`, `MakeSymlink` and `MakeDir` are best-effort, so that a
/// partially applied earlier run can be retried.
#[derive(Debug, PartialEq, Eq)]
pub enum Mutation {
    /// Create (truncating) the file at `path` and write `content` to it.
    WriteFile { path: String, content: Vec<u8> },
    /// Create a hard link at `link` to the existing `original`.
    MakeHardLink { original: String, link: String },
    /// Create a symbolic link at `link` pointing at `target`.
    ///
    /// The direction is pinned deliberately: the link lives at the entry's
    /// archive path and its text is the stored link target. A target that
    /// carries no directory-separator prefix is resolved relative to the
    /// directory containing the link, which only works out when the link is
    /// created at the archive path. The OS call takes the two strings in
    /// the opposite order from this record, and swapping them would plant
    /// the link at the location the target string names, pointing back at
    /// the archive path — a hazard this contract rules out.
    MakeSymlink { link: String, target: String },
    /// Create the directory at `path`, tolerating one that already exists.
    MakeDir { path: String },
    /// Set the permission bits of `path` to `perm`.
    Chmod { path: String, perm: u32 },
    /// Remove the file, hard link or symlink at `path`.
    RemoveFile { path: String },
    /// Remove the (expected empty) directory at `path`.
    RemoveDir { path: String },
}

impl View for Mutation {
    type V = MutationV;

    open spec fn view(&self) -> MutationV {
        match self {
            Mutation::WriteFile { path, content } => MutationV::WriteFile {
                path: path@,
                content: content@,
            },
            Mutation::MakeHardLink { original, link } => MutationV::MakeHardLink {
                original: original@,
                link: link@,
            },
            Mutation::MakeSymlink { link, target } => MutationV::MakeSymlink {
                link: link@,
                target: target@,
            },
            Mutation::MakeDir { path } => MutationV::MakeDir { path: path@ },
            Mutation::Chmod { path, perm } => MutationV::Chmod { path: path@, perm: *perm },
            Mutation::RemoveFile { path } => MutationV::RemoveFile { path: path@ },
            Mutation::RemoveDir { path } => MutationV::RemoveDir { path: path@ },
        }
    }
}

/// The views of a list of mutations.
pub open spec fn muts_view(v: Seq<Mutation>) -> Seq<MutationV> {
    v.map_values(|m: Mutation| m@)
}

/// Whether the best-effort policy applies: creation of links and directories
/// is retried-tolerant, everything else is fatal on failure.
pub open spec fn spec_best_effort(m: MutationV) -> bool {
    match m {
        MutationV::MakeHardLink { .. } => true,
        MutationV::MakeSymlink { .. } => true,
        MutationV::MakeDir { .. } => true,
        _ => false,
    }
}

impl Mutation {
    /// Whether a failure of this mutation is absorbed rather than fatal.
    pub fn best_effort(&self) -> (r: bool)
        ensures
            r == spec_best_effort(self@),
    {
        match self {
            Mutation::MakeHardLink { .. } => true,
            Mutation::MakeSymlink { .. } => true,
            Mutation::MakeDir { .. } => true,
            _ => false,
        }
    }
}

/// Whether the payload can be written for this record: link targets must be
/// valid text.
pub open spec fn write_ok(r: RecordV, payload: Seq<u8>) -> bool {
    (r.data_type == EntryKind::HardLink || r.data_type == EntryKind::Symlink) ==> valid_utf8(
        payload,
    )
}

/// The mutation that applies a record's payload to the filesystem, if any:
/// the archive-root directory marker `./` needs none.
///
/// For links, the link itself is created at the record's path: a symlink at
/// `r.path` whose text is the decoded payload, a hard link at `r.path` to
/// the existing file the payload names. See `Mutation::MakeSymlink` for why
/// the symlink direction is fixed this way.
pub open spec fn write_mutation(r: RecordV, payload: Seq<u8>) -> Option<MutationV> {
    match r.data_type {
        EntryKind::Regular => Some(MutationV::WriteFile { path: r.path, content: payload }),
        EntryKind::HardLink => Some(
            MutationV::MakeHardLink { original: decode_utf8(payload), link: r.path },
        ),
        EntryKind::Symlink => Some(
            MutationV::MakeSymlink { link: r.path, target: decode_utf8(payload) },
        ),
        EntryKind::Directory => if r.path == "./"@ {
            None
        } else {
            Some(MutationV::MakeDir { path: r.path })
        },
    }
}

/// The mutation that removes a record's path from the filesystem.
pub open spec fn removal_mutation(r: RecordV) -> MutationV {
    match r.data_type {
        EntryKind::Directory => MutationV::RemoveDir { path: r.path },
        _ => MutationV::RemoveFile { path: r.path },
    }
}

/// A singleton or empty mutation list.
pub open spec fn opt_muts(m: Option<MutationV>) -> Seq<MutationV> {
    match m {
        Some(x) => seq![x],
        None => Seq::empty(),
    }
}

/// The view of an optional mutation.
pub open spec fn opt_mutation_view(m: Option<Mutation>) -> Option<MutationV> {
    match m {
        Some(x) => Some(x@),
        None => None,
    }
}

impl EntryRecord {
    /// The filesystem mutation that writes this record's payload, or the
    /// fatal error when a link target is not valid text.
    pub fn write_action(&self, data: &Vec<u8>) -> (r: Result<Option<Mutation>, TarplyError>)
        ensures
            write_ok(self@, data@) ==> (r matches Ok(m) && opt_mutation_view(m) == write_mutation(
                self@,
                data@,
            )),
            !write_ok(self@, data@) ==> r == Err::<Option<Mutation>, TarplyError>(
                TarplyError::InvalidText,
            ),
    {
        match self.data_type {
            EntryKind::Regular => Ok(
                Some(
                    Mutation::WriteFile {
                        path: self.path.clone(),
                        content: vstd::slice::slice_to_vec(data.as_slice()),
                    },
                ),
            ),
            EntryKind::HardLink => match bytes_to_string(data) {
                Some(target) => Ok(
                    Some(Mutation::MakeHardLink { original: target, link: self.path.clone() }),
                ),
                None => Err(TarplyError::InvalidText),
            },
            EntryKind::Symlink => match bytes_to_string(data) {
                Some(target) => Ok(
                    Some(Mutation::MakeSymlink { link: self.path.clone(), target }),
                ),
                None => Err(TarplyError::InvalidText),
            },
            EntryKind::Directory => {
                if is_root_marker(&self.path) {
                    Ok(None)
                } else {
                    Ok(Some(Mutation::MakeDir { path: self.path.clone() }))
                }
            },
        }
    }

    /// The filesystem mutation that removes this record's path.
    pub fn remove_action(&self) -> (m: Mutation)
        ensures
            m@ == removal_mutation(self@),
    {
        match self.data_type {
            EntryKind::Directory => Mutation::RemoveDir { path: self.path.clone() },
            _ => Mutation::RemoveFile { path: self.path.clone() },
        }
    }
}

/// The mathematical content of a `RawEntry`.
#[verifier::ext_equal]
pub struct InputV {
    pub path: Seq<char>,
    pub kind: ArchiveKind,
    pub content: Seq<u8>,
    pub link_target: Option<Seq<u8>>,
    pub perm: u32,
    pub uid: u64,
    pub gid: u64,
}

/// One archive entry, as the archive reader hands it over: the resolved
/// path, the declared kind, the content bytes, the link-target bytes if the
/// header carries any, and the header metadata.
#[derive(Debug)]
pub struct RawEntry {
    pub path: String,
    pub kind: ArchiveKind,
    pub content: Vec<u8>,
    pub link_target: Option<Vec<u8>>,
    pub perm: u32,
    pub uid: u64,
    pub gid: u64,
}

impl View for RawEntry {
    type V = InputV;

    open spec fn view(&self) -> InputV {
        InputV {
            path: self.path@,
            kind: self.kind,
            content: self.content@,
            link_target: match self.link_target {
                Some(t) => Some(t@),
                None => None,
            },
            perm: self.perm,
            uid: self.uid,
            gid: self.gid,
        }
    }
}

/// What one engine step does: fail the whole run, or move to a new tree and
/// seen-set while requesting some mutations.
#[verifier::ext_equal]
pub enum StepV {
    Fail(TarplyError),
    Step { tree: Seq<RecordV>, seen: Seq<Seq<char>>, muts: Seq<MutationV> },
}

/// The engine's decision for one entry, from the prior tree and the paths
/// seen so far in this pass.
///
/// In order: an ignored path is skipped entirely; an absolute path is fatal;
/// an unsupported kind or a missing link target is fatal; a path whose
/// record is unchanged in every identity field causes no mutation; a changed
/// record is re-applied (metadata first, then payload); a new path is
/// written and appended to the tree.
pub open spec fn step_spec(
    tree: Seq<RecordV>,
    seen: Seq<Seq<char>>,
    ignored: Seq<Seq<char>>,
    inp: InputV,
) -> StepV {
    if path_ignored(inp.path, ignored) {
        StepV::Step { tree, seen, muts: Seq::empty() }
    } else if path_absolute(inp.path) {
        StepV::Fail(TarplyError::AbsolutePath)
    } else {
        match supported_kind(inp.kind) {
            None => StepV::Fail(TarplyError::UnsupportedKind(inp.kind)),
            Some(k) => {
                if (k == EntryKind::HardLink || k == EntryKind::Symlink)
                    && inp.link_target is None {
                    StepV::Fail(TarplyError::MissingLinkTarget)
                } else {
                    let payload = payload_of(k, inp.content, inp.link_target);
                    let rec = built_record(inp.path, k, payload, inp.perm, inp.uid, inp.gid);
                    if has_path(tree, inp.path) {
                        let i = path_index(tree, inp.path);
                        if same_identity(rec, tree[i]) {
                            StepV::Step { tree, seen: seen.push(inp.path), muts: Seq::empty() }
                        } else if !write_ok(rec, payload) {
                            StepV::Fail(TarplyError::InvalidText)
                        } else {
                            StepV::Step {
                                tree: tree.update(i, rec),
                                seen: seen.push(inp.path),
                                muts: seq![
                                    MutationV::Chmod { path: rec.path, perm: rec.perm },
                                ] + opt_muts(write_mutation(rec, payload)),
                            }
                        }
                    } else {
                        if !write_ok(rec, payload) {
                            StepV::Fail(TarplyError::InvalidText)
                        } else {
                            StepV::Step {
                                tree: tree.push(rec),
                                seen: seen.push(inp.path),
                                muts: opt_muts(write_mutation(rec, payload)),
                            }
                        }
                    }
                }
            },
        }
    }
}

/// Whether a tracked record is to be deleted after the pass: its path was
/// neither seen in this pass nor matched by an ignore prefix.
pub open spec fn del_pred(r: RecordV, seen: Seq<Seq<char>>, ignored: Seq<Seq<char>>) -> bool {
    !seen.contains(r.path) && !path_ignored(r.path, ignored)
}

/// The removal mutations for the records at positions `[k, len)`, in
/// descending position order: the most recently applied path first.
pub open spec fn dels_between(
    s: Seq<RecordV>,
    k: int,
    seen: Seq<Seq<char>>,
    ignored: Seq<Seq<char>>,
) -> Seq<MutationV>
    decreases s.len() - k,
{
    if k < 0 || k >= s.len() {
        Seq::empty()
    } else {
        dels_between(s, k + 1, seen, ignored) + (if del_pred(s[k], seen, ignored) {
            seq![removal_mutation(s[k])]
        } else {
            Seq::empty()
        })
    }
}

/// The records at positions `[0, k)` that survive the deletion phase, in
/// their original order.
pub open spec fn kept(
    s: Seq<RecordV>,
    k: int,
    seen: Seq<Seq<char>>,
    ignored: Seq<Seq<char>>,
) -> Seq<RecordV>
    decreases k,
{
    if k <= 0 {
        Seq::empty()
    } else {
        kept(s, k - 1, seen, ignored) + (if !del_pred(s[k - 1], seen, ignored) {
            seq![s[k - 1]]
        } else {
            Seq::empty()
        })
    }
}

/// One synchronization pass over an archive entry stream.
pub struct ApplyPass {
    pub tree: FileTree,
    pub seen: Vec<String>,
    pub ignored: Vec<String>,
}

impl ApplyPass {
    /// The tree holds at most one record per path.
    pub open spec fn wf(&self) -> bool {
        wf_tree(self.tree@)
    }

    /// Start a pass over the given prior tree with the given ignore list.
    pub fn begin(tree: FileTree, ignored: Vec<String>) -> (p: ApplyPass)
        requires
            wf_tree(tree@),
        ensures
            p.wf(),
            p.tree@ == tree@,
            p.seen.deep_view() == Seq::<Seq<char>>::empty(),
            p.ignored == ignored,
    {
        let p = ApplyPass { tree, seen: Vec::new(), ignored };
        proof {
            assert(p.seen.deep_view() =~= Seq::<Seq<char>>::empty());
        }
        p
    }

    /// Process one archive entry: decide the mutations it needs, record it,
    /// and mark its path as seen. The decision is exactly `step_spec`.
    pub fn process_entry(&mut self, entry: RawEntry) -> (r: Result<Vec<Mutation>, TarplyError>)
        requires
            old(self).wf(),
        ensures
            final(self).wf(),
            final(self).ignored == old(self).ignored,
            match r {
                Ok(muts) => step_spec(
                    old(self).tree@,
                    old(self).seen.deep_view(),
                    old(self).ignored.deep_view(),
                    entry@,
                ) == (StepV::Step {
                    tree: final(self).tree@,
                    seen: final(self).seen.deep_view(),
                    muts: muts_view(muts@),
                }),
                Err(e) => step_spec(
                    old(self).tree@,
                    old(self).seen.deep_view(),
                    old(self).ignored.deep_view(),
                    entry@,
                ) == StepV::Fail(e) && final(self).tree@ == old(self).tree@ && final(self).seen
                    == old(self).seen,
            },
    {
        let ghost t0 = self.tree@;
        let ghost s0 = self.seen.deep_view();
        let ghost ig = self.ignored.deep_view();
        let ghost inp = entry@;

        if is_ignored(&entry.path, &self.ignored) {
            let muts: Vec<Mutation> = Vec::new();
            proof {
                assert(muts_view(muts@) =~= Seq::<MutationV>::empty());
            }
            return Ok(muts);
        }
        if is_absolute(&entry.path) {
            return Err(TarplyError::AbsolutePath);
        }
        let seen_path = entry.path.clone();
        let RawEntry { path, kind, content, link_target, perm, uid, gid } = entry;
        let (rec, payload) = match EntryRecord::new(path, kind, content, link_target, perm, uid, gid) {
            Ok(x) => x,
            Err(e) => {
                return Err(e);
            },
        };
        let ghost k = supported_kind(inp.kind)->Some_0;
        let ghost pl = payload_of(k, inp.content, inp.link_target);
        proof {
            assert(rec@ == built_record(inp.path, k, pl, inp.perm, inp.uid, inp.gid));
            assert(payload@ == pl);
        }
        match self.tree.find(&rec.path) {
            Some(i) => {
                proof {
                    lemma_path_index_unique(t0, i as int);
                }
                if self.tree.entries[i].same_identity(&rec) {
                    self.seen.push(seen_path);
                    let muts: Vec<Mutation> = Vec::new();
                    proof {
                        assert(muts_view(muts@) =~= Seq::<MutationV>::empty());
                        assert(self.seen.deep_view() =~= s0.push(inp.path));
                    }
                    Ok(muts)
                } else {
                    match rec.write_action(&payload) {
                        Err(e) => Err(e),
                        Ok(op) => {
                            let mut muts: Vec<Mutation> = Vec::new();
                            muts.push(
                                Mutation::Chmod { path: rec.path.clone(), perm: rec.perm },
                            );
                            if let Some(m) = op {
                                muts.push(m);
                            }
                            let ghost recv = rec@;
                            self.tree.entries.set(i, rec);
                            self.seen.push(seen_path);
                            proof {
                                assert(self.tree@ =~= t0.update(i as int, recv));
                                assert(self.seen.deep_view() =~= s0.push(inp.path));
                                assert(muts_view(muts@) =~= seq![
                                    MutationV::Chmod { path: recv.path, perm: recv.perm },
                                ] + opt_muts(write_mutation(recv, pl)));
                                assert forall|a: int, b: int|
                                    0 <= a < b < self.tree@.len() implies self.tree@[a].path
                                    != self.tree@[b].path by {
                                    assert(t0[a].path != t0[b].path);
                                }
                            }
                            Ok(muts)
                        },
                    }
                }
            },
            None => {
                match rec.write_action(&payload) {
                    Err(e) => Err(e),
                    Ok(op) => {
                        let mut muts: Vec<Mutation> = Vec::new();
                        if let Some(m) = op {
                            muts.push(m);
                        }
                        let ghost recv = rec@;
                        self.tree.entries.push(rec);
                        self.seen.push(seen_path);
                        proof {
                            assert(self.tree@ =~= t0.push(recv));
                            assert(self.seen.deep_view() =~= s0.push(inp.path));
                            assert(muts_view(muts@) =~= opt_muts(write_mutation(recv, pl)));
                            assert forall|a: int, b: int|
                                0 <= a < b < self.tree@.len() implies self.tree@[a].path
                                != self.tree@[b].path by {
                                if b < t0.len() {
                                    assert(t0[a].path != t0[b].path);
                                } else {
                                    assert(!has_path(t0, inp.path));
                                    assert(self.tree@[b].path == inp.path);
                                }
                            }
                        }
                        Ok(muts)
                    },
                }
            },
        }
    }

    /// End the pass: compute the deletions (tracked, non-ignored paths not
    /// seen in this pass) in reverse first-applied order, and return the
    /// surviving tree together with the removal mutations.
    pub fn finish(self) -> (r: (FileTree, Vec<Mutation>))
        requires
            self.wf(),
        ensures
            (r.0)@ == kept(
                self.tree@,
                self.tree@.len() as int,
                self.seen.deep_view(),
                self.ignored.deep_view(),
            ),
            wf_tree((r.0)@),
            muts_view((r.1)@) == dels_between(
                self.tree@,
                0,
                self.seen.deep_view(),
                self.ignored.deep_view(),
            ),
    {
        let ghost s = self.tree@;
        let ghost sv = self.seen.deep_view();
        let ghost ig = self.ignored.deep_view();
        let ApplyPass { tree, seen, ignored } = self;
        let n = tree.entries.len();

        let mut muts: Vec<Mutation> = Vec::new();
        proof {
            assert(muts_view(muts@) =~= dels_between(s, n as int, sv, ig));
        }
        let mut k = n;
        while k > 0
            invariant
                n == tree.entries.len(),
                k <= n,
                s == tree@,
                sv == seen.deep_view(),
                ig == ignored.deep_view(),
                muts_view(muts@) == dels_between(s, k as int, sv, ig),
            decreases k,
        {
            k -= 1;
            let rec = &tree.entries[k];
            if !seen_contains(&seen, &rec.path) && !is_ignored(&rec.path, &ignored) {
                muts.push(rec.remove_action());
                proof {
                    assert(muts_view(muts@) =~= dels_between(s, k + 1 as int, sv, ig) + seq![
                        removal_mutation(s[k as int]),
                    ]);
                }
            } else {
                proof {
                    assert(muts_view(muts@) =~= dels_between(s, k as int, sv, ig));
                }
            }
        }

        let mut surv: Vec<EntryRecord> = Vec::new();
        proof {
            assert(surv@.map_values(|r: EntryRecord| r@) =~= kept(s, 0, sv, ig));
        }
        let mut i: usize = 0;
        while i < n
            invariant
                n == tree.entries.len(),
                i <= n,
                s == tree@,
                sv == seen.deep_view(),
                ig == ignored.deep_view(),
                wf_tree(s),
                surv@.map_values(|r: EntryRecord| r@) == kept(s, i as int, sv, ig),
                wf_tree(kept(s, i as int, sv, ig)),
                forall|p: Seq<char>|
                    #[trigger] has_path(kept(s, i as int, sv, ig), p) ==> exists|l: int|
                        0 <= l < i && s[l].path == p,
            decreases n - i,
        {
            let rec = &tree.entries[i];
            if seen_contains(&seen, &rec.path) || is_ignored(&rec.path, &ignored) {
                surv.push(rec.duplicate());
                proof {
                    assert(surv@.map_values(|r: EntryRecord| r@) =~= kept(s, i as int, sv, ig)
                        + seq![s[i as int]]);
                    let knew = kept(s, i + 1 as int, sv, ig);
                    let kold = kept(s, i as int, sv, ig);
                    assert(knew == kold + seq![s[i as int]]);
                    assert forall|a: int, b: int| 0 <= a < b < knew.len() implies knew[a].path
                        != knew[b].path by {
                        if b < kold.len() {
                            assert(kold[a].path != kold[b].path);
                        } else {
                            assert(knew[b] == s[i as int]);
                            assert(knew[a] == kold[a]);
                            if knew[a].path == s[i as int].path {
                                assert(has_path(kold, s[i as int].path));
                                let l = choose|l: int|
                                    0 <= l < i && s[l].path == s[i as int].path;
                                assert(s[l].path != s[i as int].path);
                            }
                        }
                    }
                    assert forall|p: Seq<char>| #[trigger] has_path(knew, p) implies exists|l: int|
                        0 <= l < i + 1 && s[l].path == p by {
                        let a = choose|a: int| 0 <= a < knew.len() && knew[a].path == p;
                        if a < kold.len() {
                            assert(has_path(kold, p));
                            let l = choose|l: int| 0 <= l < i && s[l].path == p;
                            assert(0 <= l < i + 1 && s[l].path == p);
                        } else {
                            assert(knew[a] == s[i as int]);
                            assert(s[i as int].path == p);
                        }
                    }
                }
            } else {
                proof {
                    assert(kept(s, i + 1 as int, sv, ig) == kept(s, i as int, sv, ig));
                    assert forall|p: Seq<char>|
                        #[trigger] has_path(kept(s, i + 1 as int, sv, ig), p) implies exists|l: int|
                        0 <= l < i + 1 && s[l].path == p by {
                        let a = choose|a: int|
                            0 <= a < kept(s, i as int, sv, ig).len() && kept(s, i as int, sv, ig)[a].path == p;
                        let l = choose|l: int| 0 <= l < i && s[l].path == p;
                        assert(0 <= l < i + 1 && s[l].path == p);
                    }
                }
            }
            i += 1;
        }
        (FileTree { entries: surv }, muts)
    }
}

/// Whether the pass has already seen `path`.
pub fn seen_contains(seen: &Vec<String>, path: &String) -> (r: bool)
    ensures
        r == seen.deep_view().contains(path@),
{
    let n = seen.len();
    let mut i: usize = 0;
    while i < n
        invariant
            n == seen.len(),
            i <= n,
            forall|j: int| 0 <= j < i ==> seen.deep_view()[j] != path@,
        decreases n - i,
    {
        if seen[i] == *path {
            assert(seen.deep_view()[i as int] == path@);
            return true;
        }
        i += 1;
    }
    false
}

} // verus!
