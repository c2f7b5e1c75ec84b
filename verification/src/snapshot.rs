//! Keeping the last good reading of a repository whose fresh reading failed.
use vstd::prelude::*;
use crate::model::{clone_opt_string, RepoStatus, RepoStatusView};

verus! {

/// The views of a sequence of statuses.
pub open spec fn views(s: Seq<RepoStatus>) -> Seq<RepoStatusView> {
    s.map_values(|x: RepoStatus| x@)
}

/// The first entry of `prev` for `path` that has no error.
pub open spec fn find_ok_prev(prev: Seq<RepoStatusView>, path: Seq<char>) -> Option<
    RepoStatusView,
>
    decreases prev.len(),
{
    if prev.len() == 0 {
        None
    } else if prev[0].path == path && prev[0].error is None {
        Some(prev[0])
    } else {
        find_ok_prev(prev.drop_first(), path)
    }
}

/// A fresh status merged with the previous snapshot: when it failed and the
/// previous snapshot holds a good reading of the same path, that reading with
/// the fresh error and check time; otherwise the fresh status itself.
pub open spec fn merged(prev: Seq<RepoStatusView>, f: RepoStatusView) -> RepoStatusView {
    if f.error is Some {
        match find_ok_prev(prev, f.path) {
            Some(p) => RepoStatusView { error: f.error, last_checked: f.last_checked, ..p },
            None => f,
        }
    } else {
        f
    }
}

pub proof fn lemma_find_ok_prev_found(prev: Seq<RepoStatusView>, path: Seq<char>)
    ensures
        find_ok_prev(prev, path) matches Some(p) ==> p.path == path && p.error is None,
    decreases prev.len(),
{
    if prev.len() > 0 {
        lemma_find_ok_prev_found(prev.drop_first(), path);
    }
}

proof fn lemma_find_ok_prev_skip(prev: Seq<RepoStatusView>, path: Seq<char>, j: int)
    requires
        0 <= j <= prev.len(),
        forall|k: int| 0 <= k < j ==> !(prev[k].path == path && prev[k].error is None),
    ensures
        find_ok_prev(prev, path) == find_ok_prev(prev.skip(j), path),
    decreases j,
{
    if j > 0 {
        assert(prev.skip(j) =~= prev.drop_first().skip(j - 1));
        lemma_find_ok_prev_skip(prev.drop_first(), path, j - 1);
    } else {
        assert(prev.skip(0) =~= prev);
    }
}

/// The index of the first entry of `prev` for `path` without an error.
fn find_ok_index(prev: &[RepoStatus], path: &String) -> (r: Option<usize>)
    ensures
        match r {
            Some(j) => j < prev@.len() && views(prev@)[j as int].path == path@ && views(
                prev@,
            )[j as int].error is None && forall|k: int|
                0 <= k < j ==> !(views(prev@)[k].path == path@ && views(prev@)[k].error is None),
            None => forall|k: int|
                0 <= k < prev@.len() ==> !(views(prev@)[k].path == path@ && views(
                    prev@,
                )[k].error is None),
        },
{
    let ghost pv = views(prev@);
    let m = prev.len();
    for j in 0..m
        invariant
            m == prev@.len(),
            pv == views(prev@),
            forall|k: int| 0 <= k < j ==> !(pv[k].path == path@ && pv[k].error is None),
    {
        if prev[j].path == *path && prev[j].error.is_none() {
            return Some(j);
        }
    }
    None
}

/// Merges each fresh status with the previous snapshot, so that a repository
/// that could not be read keeps its last good values (with the fresh error and
/// check time).
pub fn merge_failed_with_previous(prev: &[RepoStatus], fresh: Vec<RepoStatus>) -> (r: Vec<
    RepoStatus,
>)
    ensures
        r@.len() == fresh@.len(),
        forall|i: int| 0 <= i < r@.len() ==> (#[trigger] r@[i])@ == merged(views(prev@), fresh@[i]@),
{
    let ghost pv = views(prev@);
    let mut out: Vec<RepoStatus> = Vec::new();
    let n = fresh.len();
    for i in 0..n
        invariant
            n == fresh@.len(),
            pv == views(prev@),
            out@.len() == i,
            forall|k: int| 0 <= k < i ==> (#[trigger] out@[k])@ == merged(pv, fresh@[k]@),
    {
        let f = &fresh[i];
        let found = if f.error.is_some() {
            find_ok_index(prev, &f.path)
        } else {
            None
        };
        proof {
            if f.error is Some {
                match found {
                    None => {
                        lemma_find_ok_prev_skip(pv, f.path@, prev@.len() as int);
                        assert(pv.skip(prev@.len() as int).len() == 0);
                    },
                    Some(j) => {
                        lemma_find_ok_prev_skip(pv, f.path@, j as int);
                        assert(pv.skip(j as int)[0] == pv[j as int]);
                    },
                }
            }
        }
        let item = match found {
            Some(j) => {
                let mut merged_item = prev[j].clone();
                merged_item.error = clone_opt_string(&f.error);
                merged_item.last_checked = f.last_checked;
                merged_item
            },
            None => f.clone(),
        };
        out.push(item);
    }
    out
}

/// A repository without a failure passes through the merge unchanged.
pub proof fn law_ok_status_passes_through(prev: Seq<RepoStatusView>, f: RepoStatusView)
    requires
        f.error is None,
    ensures
        merged(prev, f) == f,
{
}

/// With no previous snapshot the merge changes nothing.
pub proof fn law_merge_without_history(f: RepoStatusView)
    ensures
        merged(Seq::empty(), f) == f,
{
}

/// The merge keeps each repository's path, fresh error and fresh check time.
pub proof fn law_merge_keeps_identity_and_freshness(prev: Seq<RepoStatusView>, f: RepoStatusView)
    ensures
        merged(prev, f).path == f.path,
        merged(prev, f).error == f.error,
        merged(prev, f).last_checked == f.last_checked,
{
    lemma_find_ok_prev_found(prev, f.path);
}

/// Merging an already merged status with the same previous snapshot changes
/// nothing.
pub proof fn law_merge_idempotent(prev: Seq<RepoStatusView>, f: RepoStatusView)
    ensures
        merged(prev, merged(prev, f)) == merged(prev, f),
{
    lemma_find_ok_prev_found(prev, f.path);
}

/// A failed reading of a repository whose previous snapshot holds a good
/// reading of the same path shows the first such reading in every field
/// (branch, counts, clean flag, state and the rest), with only the error and
/// the check time of the failed reading.
pub proof fn law_failed_reading_keeps_previous(
    prev: Seq<RepoStatusView>,
    f: RepoStatusView,
    j: int,
)
    requires
        0 <= j < prev.len(),
        f.error is Some,
        prev[j].path == f.path,
        prev[j].error is None,
        forall|k: int| 0 <= k < j ==> !((#[trigger] prev[k]).path == f.path && prev[k].error is None),
    ensures
        merged(prev, f) == (RepoStatusView {
            error: f.error,
            last_checked: f.last_checked,
            ..prev[j]
        }),
        merged(prev, f).is_clean == prev[j].is_clean,
        merged(prev, f).staged == prev[j].staged,
        merged(prev, f).branch == prev[j].branch,
{
    lemma_find_ok_prev_skip(prev, f.path, j);
    assert(prev.skip(j)[0] == prev[j]);
}

/// A failed reading of a repository without a good previous reading of its
/// path is shown as it is.
pub proof fn law_failed_reading_without_history(prev: Seq<RepoStatusView>, f: RepoStatusView)
    requires
        forall|k: int| 0 <= k < prev.len() ==> !((#[trigger] prev[k]).path == f.path && prev[k].error is None),
    ensures
        merged(prev, f) == f,
{
    lemma_find_ok_prev_skip(prev, f.path, prev.len() as int);
    assert(prev.skip(prev.len() as int).len() == 0);
}

} // verus!
