//! The engine's global guarantees, stated and proved over the same spec
//! functions its contracts use.

use vstd::prelude::*;

use crate::engine::{
    InputV, MutationV, StepV, del_pred, dels_between, kept, removal_mutation, step_spec,
};
use crate::filter::{path_absolute, path_ignored};
use crate::kinds::{EntryKind, supported_kind};
use crate::record::{RecordV, built_record, payload_of, same_identity};
use crate::state::{has_path, path_index, record_of, wf_tree};

verus! {

/// The record the engine builds for an accepted entry.
pub open spec fn built_of(inp: InputV) -> RecordV {
    let k = supported_kind(inp.kind)->Some_0;
    built_record(
        inp.path,
        k,
        payload_of(k, inp.content, inp.link_target),
        inp.perm,
        inp.uid,
        inp.gid,
    )
}

/// Whether an entry passes every check that does not depend on the tree:
/// it is not absolute, its kind is supported, and a link carries a target.
pub open spec fn input_ok(inp: InputV) -> bool {
    &&& !path_absolute(inp.path)
    &&& supported_kind(inp.kind) is Some
    &&& !((supported_kind(inp.kind)->Some_0 == EntryKind::HardLink || supported_kind(
        inp.kind,
    )->Some_0 == EntryKind::Symlink) && inp.link_target is None)
}

/// No-op on equality: an entry whose path is already tracked with the same
/// size, digest, kind, permissions and owner ids asks for no filesystem
/// mutation and leaves the tree untouched; only the seen-set grows.
pub proof fn lemma_no_op_on_equality(
    tree: Seq<RecordV>,
    seen: Seq<Seq<char>>,
    ign: Seq<Seq<char>>,
    inp: InputV,
)
    requires
        !path_ignored(inp.path, ign),
        input_ok(inp),
        has_path(tree, inp.path),
        same_identity(built_of(inp), tree[path_index(tree, inp.path)]),
    ensures
        step_spec(tree, seen, ign, inp) == (StepV::Step {
            tree,
            seen: seen.push(inp.path),
            muts: Seq::<MutationV>::empty(),
        }),
{
}

/// The number of records at positions `[k, len)` that the deletion phase
/// removes.
pub open spec fn del_count(
    s: Seq<RecordV>,
    k: int,
    seen: Seq<Seq<char>>,
    ign: Seq<Seq<char>>,
) -> nat
    decreases s.len() - k,
{
    if k < 0 || k >= s.len() {
        0
    } else {
        del_count(s, k + 1, seen, ign) + (if del_pred(s[k], seen, ign) {
            1nat
        } else {
            0nat
        })
    }
}

proof fn lemma_dels_len(s: Seq<RecordV>, k: int, seen: Seq<Seq<char>>, ign: Seq<Seq<char>>)
    ensures
        dels_between(s, k, seen, ign).len() == del_count(s, k, seen, ign),
    decreases s.len() - k,
{
    if 0 <= k < s.len() {
        lemma_dels_len(s, k + 1, seen, ign);
    }
}

proof fn lemma_count_lower(
    s: Seq<RecordV>,
    a: int,
    m: int,
    seen: Seq<Seq<char>>,
    ign: Seq<Seq<char>>,
)
    requires
        0 <= a <= m < s.len(),
        del_pred(s[m], seen, ign),
    ensures
        del_count(s, a, seen, ign) >= del_count(s, m + 1, seen, ign) + 1,
    decreases m - a,
{
    if a < m {
        lemma_count_lower(s, a + 1, m, seen, ign);
    }
}

proof fn lemma_dels_index(
    s: Seq<RecordV>,
    k: int,
    m: int,
    seen: Seq<Seq<char>>,
    ign: Seq<Seq<char>>,
)
    requires
        0 <= k <= m < s.len(),
        del_pred(s[m], seen, ign),
    ensures
        del_count(s, m + 1, seen, ign) < dels_between(s, k, seen, ign).len(),
        dels_between(s, k, seen, ign)[del_count(s, m + 1, seen, ign) as int]
            == removal_mutation(s[m]),
    decreases m - k,
{
    lemma_dels_len(s, k, seen, ign);
    lemma_count_lower(s, k, m, seen, ign);
    if k == m {
        lemma_dels_len(s, m + 1, seen, ign);
    } else {
        lemma_dels_index(s, k + 1, m, seen, ign);
        lemma_dels_len(s, k + 1, seen, ign);
    }
}

/// Deletion ordering: of two doomed records, the one applied later is
/// removed first. A directory's children are recorded after the directory
/// itself, so a doomed child is always deleted before its doomed parent.
pub proof fn lemma_deletion_ordering(
    s: Seq<RecordV>,
    seen: Seq<Seq<char>>,
    ign: Seq<Seq<char>>,
    i: int,
    j: int,
)
    requires
        0 <= i < j < s.len(),
        del_pred(s[i], seen, ign),
        del_pred(s[j], seen, ign),
    ensures
        ({
            let dels = dels_between(s, 0, seen, ign);
            exists|a: int, b: int|
                0 <= a < b < dels.len() && dels[a] == removal_mutation(s[j]) && dels[b]
                    == removal_mutation(s[i])
        }),
{
    let dels = dels_between(s, 0, seen, ign);
    let a = del_count(s, j + 1, seen, ign) as int;
    let b = del_count(s, i + 1, seen, ign) as int;
    lemma_dels_index(s, 0, j, seen, ign);
    lemma_dels_index(s, 0, i, seen, ign);
    lemma_count_lower(s, i + 1, j, seen, ign);
    assert(0 <= a < b < dels.len() && dels[a] == removal_mutation(s[j]) && dels[b]
        == removal_mutation(s[i]));
}

/// Ignore-list opacity, entry side: an entry whose path matches an ignore
/// prefix is skipped entirely — no mutation, no record, no seen mark.
pub proof fn lemma_ignored_entry_skipped(
    tree: Seq<RecordV>,
    seen: Seq<Seq<char>>,
    ign: Seq<Seq<char>>,
    inp: InputV,
)
    requires
        path_ignored(inp.path, ign),
    ensures
        step_spec(tree, seen, ign, inp) == (StepV::Step {
            tree,
            seen,
            muts: Seq::<MutationV>::empty(),
        }),
{
}

/// Ignore-list opacity, deletion side: every removal the deletion phase asks
/// for targets a tracked record whose path was not seen and does not match
/// any ignore prefix — an ignored path is never deleted, whatever the prior
/// state recorded for it.
#[verifier::rlimit(50)]
#[verifier::spinoff_prover]
pub proof fn lemma_ignored_never_deleted(
    s: Seq<RecordV>,
    k: int,
    seen: Seq<Seq<char>>,
    ign: Seq<Seq<char>>,
)
    ensures
        forall|t: int|
            0 <= t < dels_between(s, k, seen, ign).len() ==> exists|l: int|
                k <= l < s.len() && #[trigger] dels_between(s, k, seen, ign)[t]
                    == removal_mutation(s[l]) && !path_ignored(s[l].path, ign) && !seen.contains(
                    s[l].path,
                ),
    decreases s.len() - k,
{
    if 0 <= k < s.len() {
        lemma_ignored_never_deleted(s, k + 1, seen, ign);
        let pre = dels_between(s, k + 1, seen, ign);
        let cur = dels_between(s, k, seen, ign);
        assert forall|t: int| 0 <= t < cur.len() implies exists|l: int|
            k <= l < s.len() && #[trigger] cur[t] == removal_mutation(s[l]) && !path_ignored(
                s[l].path,
                ign,
            ) && !seen.contains(s[l].path) by {
            if t < pre.len() {
                assert(cur[t] == pre[t]);
                let l = choose|l: int|
                    k + 1 <= l < s.len() && #[trigger] pre[t] == removal_mutation(s[l])
                        && !path_ignored(s[l].path, ign) && !seen.contains(s[l].path);
                assert(k <= l < s.len() && cur[t] == removal_mutation(s[l]));
            } else {
                assert(del_pred(s[k], seen, ign));
                assert(cur[t] == removal_mutation(s[k]));
            }
        }
    }
}

/// Ignore-list opacity, record side: a tracked record that was seen or whose
/// path matches an ignore prefix survives the deletion phase.
pub proof fn lemma_kept_keeps(s: Seq<RecordV>, k: int, seen: Seq<Seq<char>>, ign: Seq<Seq<char>>)
    ensures
        forall|l: int|
            0 <= l < k <= s.len() && !del_pred(#[trigger] s[l], seen, ign) ==> kept(
                s,
                k,
                seen,
                ign,
            ).contains(s[l]),
    decreases k,
{
    if k > 0 {
        lemma_kept_keeps(s, k - 1, seen, ign);
        let pre = kept(s, k - 1, seen, ign);
        let cur = kept(s, k, seen, ign);
        assert forall|l: int|
            0 <= l < k <= s.len() && !del_pred(#[trigger] s[l], seen, ign) implies cur.contains(
            s[l],
        ) by {
            if l < k - 1 {
                assert(pre.contains(s[l]));
                let a = choose|a: int| 0 <= a < pre.len() && pre[a] == s[l];
                assert(cur[a] == s[l]);
            } else {
                assert(cur[cur.len() - 1] == s[l]);
            }
        }
    }
}

/// Every record that survives the deletion phase was seen in the pass or is
/// ignored; none of them is doomed with respect to the final seen-set.
pub proof fn lemma_kept_all_kept(s: Seq<RecordV>, k: int, seen: Seq<Seq<char>>, ign: Seq<Seq<char>>)
    ensures
        forall|j: int|
            0 <= j < kept(s, k, seen, ign).len() ==> !del_pred(
                #[trigger] kept(s, k, seen, ign)[j],
                seen,
                ign,
            ),
    decreases k,
{
    if k > 0 {
        lemma_kept_all_kept(s, k - 1, seen, ign);
        let pre = kept(s, k - 1, seen, ign);
        let cur = kept(s, k, seen, ign);
        assert forall|j: int| 0 <= j < cur.len() implies !del_pred(cur[j], seen, ign) by {
            if j < pre.len() {
                assert(cur[j] == pre[j]);
            } else {
                assert(!del_pred(s[k - 1], seen, ign));
                assert(cur[j] == s[k - 1]);
            }
        }
    }
}

/// The paths of the non-ignored entries, in stream order.
pub open spec fn accepted_paths(inputs: Seq<InputV>, ign: Seq<Seq<char>>) -> Seq<Seq<char>>
    decreases inputs.len(),
{
    if inputs.len() == 0 {
        Seq::empty()
    } else {
        (if path_ignored(inputs[0].path, ign) {
            Seq::empty()
        } else {
            seq![inputs[0].path]
        }) + accepted_paths(inputs.drop_first(), ign)
    }
}

/// A whole pass over an entry stream: the final tree, the final seen-set and
/// every requested mutation in order, or nothing if any step fails.
pub open spec fn run_spec(
    tree: Seq<RecordV>,
    seen: Seq<Seq<char>>,
    ign: Seq<Seq<char>>,
    inputs: Seq<InputV>,
) -> Option<(Seq<RecordV>, Seq<Seq<char>>, Seq<MutationV>)>
    decreases inputs.len(),
{
    if inputs.len() == 0 {
        Some((tree, seen, Seq::empty()))
    } else {
        match step_spec(tree, seen, ign, inputs[0]) {
            StepV::Fail(e) => None,
            StepV::Step { tree: t2, seen: s2, muts } => match run_spec(
                t2,
                s2,
                ign,
                inputs.drop_first(),
            ) {
                None => None,
                Some(r) => Some((r.0, r.1, muts + r.2)),
            },
        }
    }
}

/// No two non-ignored entries carry the same path.
pub open spec fn distinct_inputs(inputs: Seq<InputV>, ign: Seq<Seq<char>>) -> bool {
    forall|a: int, b: int|
        0 <= a < b < inputs.len() && !path_ignored(#[trigger] inputs[a].path, ign)
            && !path_ignored(#[trigger] inputs[b].path, ign) ==> inputs[a].path != inputs[b].path
}

/// What one successful step does to the tree: it stays well-formed, the
/// entry's path now carries the freshly built record, and every other path
/// keeps its record untouched.
#[verifier::rlimit(30)]
proof fn lemma_step_effect(
    tree: Seq<RecordV>,
    seen: Seq<Seq<char>>,
    ign: Seq<Seq<char>>,
    inp: InputV,
)
    requires
        wf_tree(tree),
        step_spec(tree, seen, ign, inp) is Step,
    ensures
        wf_tree(step_spec(tree, seen, ign, inp)->Step_tree),
        path_ignored(inp.path, ign) ==> step_spec(tree, seen, ign, inp)->Step_tree == tree
            && step_spec(tree, seen, ign, inp)->Step_seen == seen,
        !path_ignored(inp.path, ign) ==> {
            &&& input_ok(inp)
            &&& step_spec(tree, seen, ign, inp)->Step_seen == seen.push(inp.path)
            &&& has_path(step_spec(tree, seen, ign, inp)->Step_tree, inp.path)
            &&& record_of(step_spec(tree, seen, ign, inp)->Step_tree, inp.path) == built_of(inp)
        },
{
    if path_ignored(inp.path, ign) {
        return ;
    }
    let k = supported_kind(inp.kind)->Some_0;
    let payload = payload_of(k, inp.content, inp.link_target);
    let rec = built_of(inp);
    if has_path(tree, inp.path) {
        let i = path_index(tree, inp.path);
        assert(0 <= i < tree.len() && tree[i].path == inp.path);
        if same_identity(rec, tree[i]) {
            assert(tree[i] =~= rec);
            assert(record_of(tree, inp.path) == tree[i]);
            assert(record_of(tree, inp.path) == built_of(inp));
        } else {
            let t2 = step_spec(tree, seen, ign, inp)->Step_tree;
            assert(t2 == tree.update(i, rec));
            assert forall|a: int, b: int| 0 <= a < b < t2.len() implies t2[a].path
                != t2[b].path by {
                assert(tree[a].path != tree[b].path);
                assert(t2[a].path == tree[a].path && t2[b].path == tree[b].path);
            }
            crate::state::lemma_path_index_unique(t2, i);
        }
    } else {
        let t2 = step_spec(tree, seen, ign, inp)->Step_tree;
        assert(t2 == tree.push(rec));
        assert forall|a: int, b: int| 0 <= a < b < t2.len() implies t2[a].path != t2[b].path by {
            if b < tree.len() {
                assert(tree[a].path != tree[b].path);
            } else {
                assert(t2[b] == rec);
                assert(t2[a] == tree[a]);
                if t2[a].path == rec.path {
                    assert(has_path(tree, inp.path));
                }
            }
        }
        crate::state::lemma_path_index_unique(t2, tree.len() as int);
    }
}

/// One step touches nothing but its own entry's path: every other path
/// keeps its presence and its record.
#[verifier::rlimit(30)]
proof fn lemma_step_preserves(
    tree: Seq<RecordV>,
    seen: Seq<Seq<char>>,
    ign: Seq<Seq<char>>,
    inp: InputV,
    p: Seq<char>,
)
    requires
        wf_tree(tree),
        step_spec(tree, seen, ign, inp) is Step,
        p != inp.path,
    ensures
        has_path(step_spec(tree, seen, ign, inp)->Step_tree, p) == has_path(tree, p),
        has_path(tree, p) ==> record_of(step_spec(tree, seen, ign, inp)->Step_tree, p)
            == record_of(tree, p),
{
    if path_ignored(inp.path, ign) {
        return ;
    }
    lemma_step_effect(tree, seen, ign, inp);
    let t2 = step_spec(tree, seen, ign, inp)->Step_tree;
    let rec = built_of(inp);
    if has_path(tree, inp.path) {
        let i = path_index(tree, inp.path);
        if same_identity(rec, tree[i]) {
        } else {
            assert(t2 == tree.update(i, rec));
            if has_path(tree, p) {
                let l = path_index(tree, p);
                assert(l != i);
                assert(t2[l] == tree[l] && t2[l].path == p);
                assert(has_path(t2, p));
                crate::state::lemma_path_index_unique(t2, l);
            }
            if has_path(t2, p) {
                let l = path_index(t2, p);
                assert(l != i);
                assert(tree[l].path == p);
                assert(has_path(tree, p));
            }
        }
    } else {
        assert(t2 == tree.push(rec));
        if has_path(tree, p) {
            let l = path_index(tree, p);
            assert(t2[l] == tree[l] && t2[l].path == p);
            assert(has_path(t2, p));
            crate::state::lemma_path_index_unique(t2, l);
        }
        if has_path(t2, p) {
            let l = path_index(t2, p);
            assert(l != tree.len());
            assert(tree[l].path == p);
            assert(has_path(tree, p));
        }
    }
}

/// After a successful pass every non-ignored entry's path is tracked with
/// exactly the record built from that entry, the seen-set is the accepted
/// paths in order, and untouched paths keep their records.
#[verifier::rlimit(30)]
proof fn lemma_run_records(
    tree: Seq<RecordV>,
    seen: Seq<Seq<char>>,
    ign: Seq<Seq<char>>,
    inputs: Seq<InputV>,
)
    requires
        wf_tree(tree),
        distinct_inputs(inputs, ign),
        run_spec(tree, seen, ign, inputs) is Some,
    ensures
        run_spec(tree, seen, ign, inputs) matches Some(r) ==> {
            &&& wf_tree(r.0)
            &&& r.1 == seen + accepted_paths(inputs, ign)
            &&& forall|idx: int|
                0 <= idx < inputs.len() && !path_ignored(#[trigger] inputs[idx].path, ign) ==> {
                    &&& input_ok(inputs[idx])
                    &&& has_path(r.0, inputs[idx].path)
                    &&& record_of(r.0, inputs[idx].path) == built_of(inputs[idx])
                }
            &&& forall|p: Seq<char>|
                #[trigger] has_path(tree, p) && !(exists|idx: int|
                    0 <= idx < inputs.len() && !path_ignored(#[trigger] inputs[idx].path, ign)
                        && inputs[idx].path == p) ==> has_path(r.0, p) && record_of(r.0, p)
                    == record_of(tree, p)
        },
    decreases inputs.len(),
{
    if inputs.len() == 0 {
        assert(seen + accepted_paths(inputs, ign) =~= seen);
        return ;
    }
    let inp = inputs[0];
    let rest = inputs.drop_first();
    let step = step_spec(tree, seen, ign, inp);
    lemma_step_effect(tree, seen, ign, inp);
    let t2 = step->Step_tree;
    let s2 = step->Step_seen;
    assert(distinct_inputs(rest, ign)) by {
        assert forall|a: int, b: int|
            0 <= a < b < rest.len() && !path_ignored(#[trigger] rest[a].path, ign)
                && !path_ignored(#[trigger] rest[b].path, ign) implies rest[a].path
            != rest[b].path by {
            assert(rest[a] == inputs[a + 1] && rest[b] == inputs[b + 1]);
        }
    }
    lemma_run_records(t2, s2, ign, rest);
    let r = run_spec(tree, seen, ign, inputs)->Some_0;
    let rr = run_spec(t2, s2, ign, rest)->Some_0;
    assert(r.0 == rr.0 && r.1 == rr.1);
    if path_ignored(inp.path, ign) {
        assert(r.1 == seen + accepted_paths(inputs, ign)) by {
            assert(accepted_paths(inputs, ign) =~= accepted_paths(rest, ign));
        }
        assert forall|idx: int|
            0 <= idx < inputs.len() && !path_ignored(#[trigger] inputs[idx].path, ign) implies {
            &&& input_ok(inputs[idx])
            &&& has_path(r.0, inputs[idx].path)
            &&& record_of(r.0, inputs[idx].path) == built_of(inputs[idx])
        } by {
            assert(idx > 0);
            assert(rest[idx - 1] == inputs[idx]);
        }
        assert forall|p: Seq<char>|
            #[trigger] has_path(tree, p) && !(exists|idx: int|
                0 <= idx < inputs.len() && !path_ignored(#[trigger] inputs[idx].path, ign)
                    && inputs[idx].path == p) implies has_path(r.0, p) && record_of(r.0, p)
            == record_of(tree, p) by {
            assert forall|idx: int|
                0 <= idx < rest.len() && !path_ignored(#[trigger] rest[idx].path, ign) implies rest[idx].path != p by {
                assert(rest[idx] == inputs[idx + 1]);
            }
            assert(!(exists|idx: int|
                0 <= idx < rest.len() && !path_ignored(#[trigger] rest[idx].path, ign)
                    && rest[idx].path == p));
        }
    } else {
        assert(r.1 == seen + accepted_paths(inputs, ign)) by {
            assert(accepted_paths(inputs, ign) == seq![inp.path] + accepted_paths(rest, ign));
            assert(seen.push(inp.path) + accepted_paths(rest, ign) =~= seen + (seq![inp.path]
                + accepted_paths(rest, ign)));
        }
        assert forall|idx: int|
            0 <= idx < inputs.len() && !path_ignored(#[trigger] inputs[idx].path, ign) implies {
            &&& input_ok(inputs[idx])
            &&& has_path(r.0, inputs[idx].path)
            &&& record_of(r.0, inputs[idx].path) == built_of(inputs[idx])
        } by {
            if idx == 0 {
                assert forall|l: int|
                    0 <= l < rest.len() && !path_ignored(#[trigger] rest[l].path, ign) implies rest[l].path != inp.path by {
                    assert(rest[l] == inputs[l + 1]);
                }
                assert(!(exists|l: int|
                    0 <= l < rest.len() && !path_ignored(#[trigger] rest[l].path, ign)
                        && rest[l].path == inp.path));
                assert(has_path(t2, inp.path));
                assert(record_of(t2, inp.path) == built_of(inp));
            } else {
                assert(rest[idx - 1] == inputs[idx]);
            }
        }
        assert forall|p: Seq<char>|
            #[trigger] has_path(tree, p) && !(exists|idx: int|
                0 <= idx < inputs.len() && !path_ignored(#[trigger] inputs[idx].path, ign)
                    && inputs[idx].path == p) implies has_path(r.0, p) && record_of(r.0, p)
            == record_of(tree, p) by {
            assert(inputs[0] == inp);
            assert(!path_ignored(inputs[0].path, ign));
            assert(!(0 <= 0 < inputs.len() && !path_ignored(inputs[0].path, ign)
                && inputs[0].path == p));
            assert(p != inp.path);
            lemma_step_preserves(tree, seen, ign, inp, p);
            assert(has_path(t2, p) && record_of(t2, p) == record_of(tree, p));
            assert forall|idx: int|
                0 <= idx < rest.len() && !path_ignored(#[trigger] rest[idx].path, ign) implies rest[idx].path != p by {
                assert(rest[idx] == inputs[idx + 1]);
            }
            assert(!(exists|idx: int|
                0 <= idx < rest.len() && !path_ignored(#[trigger] rest[idx].path, ign)
                    && rest[idx].path == p));
        }
    }
}

/// A pass over entries whose records are already all tracked unchanged asks
/// for no mutation at all and leaves the tree exactly as it was.
proof fn lemma_run_noop(
    tree: Seq<RecordV>,
    seen: Seq<Seq<char>>,
    ign: Seq<Seq<char>>,
    inputs: Seq<InputV>,
)
    requires
        wf_tree(tree),
        forall|idx: int|
            0 <= idx < inputs.len() && !path_ignored(#[trigger] inputs[idx].path, ign) ==> {
                &&& input_ok(inputs[idx])
                &&& has_path(tree, inputs[idx].path)
                &&& record_of(tree, inputs[idx].path) == built_of(inputs[idx])
            },
    ensures
        run_spec(tree, seen, ign, inputs) == Some(
            (tree, seen + accepted_paths(inputs, ign), Seq::<MutationV>::empty()),
        ),
    decreases inputs.len(),
{
    if inputs.len() == 0 {
        assert(seen + accepted_paths(inputs, ign) =~= seen);
        return ;
    }
    let inp = inputs[0];
    let rest = inputs.drop_first();
    assert(forall|idx: int|
        0 <= idx < rest.len() && !path_ignored(#[trigger] rest[idx].path, ign) ==> rest[idx]
            == inputs[idx + 1]);
    if path_ignored(inp.path, ign) {
        lemma_run_noop(tree, seen, ign, rest);
        assert(accepted_paths(inputs, ign) =~= accepted_paths(rest, ign));
        assert(Seq::<MutationV>::empty() + Seq::<MutationV>::empty()
            =~= Seq::<MutationV>::empty());
    } else {
        let i = path_index(tree, inp.path);
        assert(record_of(tree, inp.path) == tree[i]);
        assert(tree[i] == built_of(inp));
        assert(same_identity(built_of(inp), tree[i]));
        assert(step_spec(tree, seen, ign, inp) == (StepV::Step {
            tree,
            seen: seen.push(inp.path),
            muts: Seq::<MutationV>::empty(),
        }));
        lemma_run_noop(tree, seen.push(inp.path), ign, rest);
        assert(seen.push(inp.path) + accepted_paths(rest, ign) =~= seen + (seq![inp.path]
            + accepted_paths(rest, ign)));
        assert(accepted_paths(inputs, ign) == seq![inp.path] + accepted_paths(rest, ign));
        assert(Seq::<MutationV>::empty() + Seq::<MutationV>::empty()
            =~= Seq::<MutationV>::empty());
    }
}

/// The surviving records form a well-formed tree, and every surviving path
/// was already tracked.
pub proof fn lemma_kept_wf(s: Seq<RecordV>, k: int, seen: Seq<Seq<char>>, ign: Seq<Seq<char>>)
    requires
        wf_tree(s),
        0 <= k <= s.len(),
    ensures
        wf_tree(kept(s, k, seen, ign)),
        forall|p: Seq<char>|
            #[trigger] has_path(kept(s, k, seen, ign), p) ==> exists|l: int|
                0 <= l < k && s[l].path == p,
    decreases k,
{
    if k > 0 {
        lemma_kept_wf(s, k - 1, seen, ign);
        let pre = kept(s, k - 1, seen, ign);
        let cur = kept(s, k, seen, ign);
        if !del_pred(s[k - 1], seen, ign) {
            assert(cur == pre + seq![s[k - 1]]);
            assert forall|a: int, b: int| 0 <= a < b < cur.len() implies cur[a].path
                != cur[b].path by {
                if b < pre.len() {
                    assert(pre[a].path != pre[b].path);
                } else {
                    assert(cur[b] == s[k - 1]);
                    assert(cur[a] == pre[a]);
                    if cur[a].path == s[k - 1].path {
                        assert(has_path(pre, s[k - 1].path));
                        let l = choose|l: int| 0 <= l < k - 1 && #[trigger] s[l].path == s[k - 1].path;
                        assert(s[l].path != s[k - 1].path);
                    }
                }
            }
            assert forall|p: Seq<char>| #[trigger] has_path(cur, p) implies exists|l: int|
                0 <= l < k && s[l].path == p by {
                let a = choose|a: int| 0 <= a < cur.len() && cur[a].path == p;
                if a < pre.len() {
                    assert(has_path(pre, p));
                    let l = choose|l: int| 0 <= l < k - 1 && s[l].path == p;
                    assert(0 <= l < k && s[l].path == p);
                } else {
                    assert(cur[a] == s[k - 1]);
                    assert(s[k - 1].path == p);
                }
            }
        } else {
            assert(cur == pre);
            assert forall|p: Seq<char>| #[trigger] has_path(cur, p) implies exists|l: int|
                0 <= l < k && s[l].path == p by {
                let l = choose|l: int| 0 <= l < k - 1 && s[l].path == p;
                assert(0 <= l < k && s[l].path == p);
            }
        }
    }
}

/// A record that was seen or is ignored survives the deletion phase under
/// its path, unchanged.
proof fn lemma_kept_record(s: Seq<RecordV>, seen: Seq<Seq<char>>, ign: Seq<Seq<char>>, p: Seq<char>)
    requires
        wf_tree(s),
        has_path(s, p),
        !del_pred(record_of(s, p), seen, ign),
    ensures
        has_path(kept(s, s.len() as int, seen, ign), p),
        record_of(kept(s, s.len() as int, seen, ign), p) == record_of(s, p),
{
    let kk = kept(s, s.len() as int, seen, ign);
    let l = path_index(s, p);
    assert(s[l] == record_of(s, p));
    lemma_kept_keeps(s, s.len() as int, seen, ign);
    assert(kk.contains(s[l]));
    let a = choose|a: int| 0 <= a < kk.len() && kk[a] == s[l];
    lemma_kept_wf(s, s.len() as int, seen, ign);
    crate::state::lemma_path_index_unique(kk, a);
}

/// Idempotence: running the same entry stream again, over the tree the first
/// run left behind, asks for no write and no deletion — every step finds its
/// record unchanged, and the deletion phase finds nothing doomed.
pub proof fn lemma_idempotence(tree0: Seq<RecordV>, ign: Seq<Seq<char>>, inputs: Seq<InputV>)
    requires
        wf_tree(tree0),
        distinct_inputs(inputs, ign),
        run_spec(tree0, Seq::empty(), ign, inputs) is Some,
    ensures
        ({
            let r1 = run_spec(tree0, Seq::empty(), ign, inputs)->Some_0;
            let t2 = kept(r1.0, r1.0.len() as int, r1.1, ign);
            &&& run_spec(t2, Seq::empty(), ign, inputs) == Some(
                (t2, r1.1, Seq::<MutationV>::empty()),
            )
            &&& dels_between(t2, 0, r1.1, ign) == Seq::<MutationV>::empty()
            &&& kept(t2, t2.len() as int, r1.1, ign) == t2
        }),
{
    let r1 = run_spec(tree0, Seq::empty(), ign, inputs)->Some_0;
    lemma_run_records(tree0, Seq::empty(), ign, inputs);
    let t1 = r1.0;
    let s1 = r1.1;
    assert(s1 =~= accepted_paths(inputs, ign));
    let t2 = kept(t1, t1.len() as int, s1, ign);
    lemma_kept_wf(t1, t1.len() as int, s1, ign);
    lemma_accepted_contains(inputs, ign);
    assert forall|idx: int|
        0 <= idx < inputs.len() && !path_ignored(#[trigger] inputs[idx].path, ign) implies {
        &&& input_ok(inputs[idx])
        &&& has_path(t2, inputs[idx].path)
        &&& record_of(t2, inputs[idx].path) == built_of(inputs[idx])
    } by {
        let p = inputs[idx].path;
        assert(has_path(t1, p) && record_of(t1, p) == built_of(inputs[idx]));
        assert(s1.contains(p));
        assert(!del_pred(record_of(t1, p), s1, ign));
        lemma_kept_record(t1, s1, ign, p);
    }
    lemma_run_noop(t2, Seq::empty(), ign, inputs);
    assert(Seq::<Seq<char>>::empty() + accepted_paths(inputs, ign) =~= s1);
    lemma_kept_all_kept(t1, t1.len() as int, s1, ign);
    lemma_no_deletions(t2, 0, s1, ign);
    lemma_kept_total(t2, t2.len() as int, s1, ign);
    assert(t2.take(t2.len() as int) =~= t2);
}

/// Every non-ignored entry's path occurs among the accepted paths.
proof fn lemma_accepted_contains(inputs: Seq<InputV>, ign: Seq<Seq<char>>)
    ensures
        forall|idx: int|
            0 <= idx < inputs.len() && !path_ignored(#[trigger] inputs[idx].path, ign)
                ==> accepted_paths(inputs, ign).contains(inputs[idx].path),
    decreases inputs.len(),
{
    if inputs.len() > 0 {
        let rest = inputs.drop_first();
        lemma_accepted_contains(rest, ign);
        let acc = accepted_paths(inputs, ign);
        let head = if path_ignored(inputs[0].path, ign) {
            Seq::<Seq<char>>::empty()
        } else {
            seq![inputs[0].path]
        };
        assert forall|idx: int|
            0 <= idx < inputs.len() && !path_ignored(#[trigger] inputs[idx].path, ign) implies acc.contains(
            inputs[idx].path,
        ) by {
            if idx == 0 {
                assert(acc[0] == inputs[0].path);
            } else {
                assert(rest[idx - 1] == inputs[idx]);
                assert(accepted_paths(rest, ign).contains(inputs[idx].path));
                let a = choose|a: int|
                    0 <= a < accepted_paths(rest, ign).len() && accepted_paths(rest, ign)[a]
                        == inputs[idx].path;
                assert(acc[head.len() + a] == inputs[idx].path);
            }
        }
    }
}

/// When nothing is doomed the deletion phase keeps every record in place.
proof fn lemma_kept_total(s: Seq<RecordV>, k: int, seen: Seq<Seq<char>>, ign: Seq<Seq<char>>)
    requires
        0 <= k <= s.len(),
        forall|j: int| 0 <= j < s.len() ==> !del_pred(#[trigger] s[j], seen, ign),
    ensures
        kept(s, k, seen, ign) == s.take(k),
    decreases k,
{
    if k > 0 {
        lemma_kept_total(s, k - 1, seen, ign);
        assert(kept(s, k, seen, ign) =~= s.take(k));
    } else {
        assert(kept(s, k, seen, ign) =~= s.take(k));
    }
}

/// A tree none of whose records is doomed produces no deletions at all.
pub proof fn lemma_no_deletions(s: Seq<RecordV>, k: int, seen: Seq<Seq<char>>, ign: Seq<Seq<char>>)
    requires
        forall|j: int| 0 <= j < s.len() ==> !del_pred(#[trigger] s[j], seen, ign),
    ensures
        dels_between(s, k, seen, ign) == Seq::<MutationV>::empty(),
    decreases s.len() - k,
{
    if 0 <= k < s.len() {
        lemma_no_deletions(s, k + 1, seen, ign);
        assert(dels_between(s, k, seen, ign) =~= Seq::<MutationV>::empty());
    }
}

} // verus!
