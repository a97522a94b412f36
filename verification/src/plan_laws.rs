use vstd::prelude::*;
use crate::plan::{
    commit_order, grouped_by_file, hunks_of, lemma_commit_order, lemma_hunks_of, plan_spec,
    FileGroup,
};
use crate::segment::FileSectionView;
use crate::state::{
    flat_hunks, lemma_flat_hunks_in_files, lemma_flat_hunks_len, UiStateView,
};

verus! {

/// In the flattened order the files never go back, and within a file the
/// hunks go forward.
pub proof fn lemma_flat_hunks_ordered(files: Seq<FileSectionView>, i: int, j: int)
    requires
        0 <= i < j < flat_hunks(files).len(),
    ensures
        flat_hunks(files)[i].0 <= flat_hunks(files)[j].0,
        flat_hunks(files)[i].0 == flat_hunks(files)[j].0 ==> flat_hunks(files)[i].1 < flat_hunks(
            files,
        )[j].1,
    decreases files.len(),
{
    if files.len() > 0 {
        let before = flat_hunks(files.drop_last());
        if j < before.len() {
            lemma_flat_hunks_ordered(files.drop_last(), i, j);
        } else if i < before.len() {
            lemma_flat_hunks_in_files(files.drop_last(), i);
        }
    }
}

/// What holds of the runs that increasing hunks are cut into.
spec fn runs_in_order(hunks: Seq<int>, flat: Seq<(int, int)>) -> bool {
    let groups = grouped_by_file(hunks, flat);
    &&& hunks.len() > 0 ==> groups.len() > 0 && groups.last().hunks.len() > 0
        && groups.last().hunks.last() == hunks.last()
    &&& forall|k: int| 0 <= k < groups.len() ==> run_of_one_file(hunks, flat, #[trigger] groups[k])
    &&& forall|j: int, k: int|
        0 <= j < k < groups.len() ==> (#[trigger] groups[j]).file < (#[trigger] groups[k]).file
    &&& forall|i: int| 0 <= i < hunks.len() ==> in_some_run(groups, #[trigger] hunks[i])
}

/// The run is not empty, its hunks are among the given ones and go forward,
/// and each of them stands in the run's file.
spec fn run_of_one_file(hunks: Seq<int>, flat: Seq<(int, int)>, group: FileGroup) -> bool {
    &&& group.hunks.len() > 0
    &&& forall|m: int|
        0 <= m < group.hunks.len() ==> hunks.contains(#[trigger] group.hunks[m]) && flat[group.hunks[m]].0
            == group.file
    &&& forall|m: int, n: int|
        0 <= m < n < group.hunks.len() ==> (#[trigger] group.hunks[m]) < (#[trigger] group.hunks[n])
}

spec fn in_some_run(groups: Seq<FileGroup>, hunk: int) -> bool {
    exists|k: int, m: int|
        0 <= k < groups.len() && 0 <= m < groups[k].hunks.len() && #[trigger] groups[k].hunks[m]
            == hunk
}

proof fn lemma_runs_in_order(files: Seq<FileSectionView>, hunks: Seq<int>)
    requires
        forall|i: int| 0 <= i < hunks.len() ==> 0 <= #[trigger] hunks[i] < flat_hunks(files).len(),
        forall|i: int, j: int| 0 <= i < j < hunks.len() ==> hunks[i] < hunks[j],
    ensures
        runs_in_order(hunks, flat_hunks(files)),
    decreases hunks.len(),
{
    let flat = flat_hunks(files);
    if hunks.len() > 0 {
        let shorter = hunks.drop_last();
        let last = hunks.last();
        assert forall|i: int| 0 <= i < shorter.len() implies 0 <= #[trigger] shorter[i]
            < flat.len() by {
            assert(shorter[i] == hunks[i]);
        }
        assert forall|i: int, j: int| 0 <= i < j < shorter.len() implies shorter[i] < shorter[j] by {
            assert(shorter[i] == hunks[i]);
            assert(shorter[j] == hunks[j]);
        }
        lemma_runs_in_order(files, shorter);
        let before = grouped_by_file(shorter, flat);
        let groups = grouped_by_file(hunks, flat);
        let file = flat[last].0;
        assert(hunks[hunks.len() - 1] == last);
        assert forall|x: int| shorter.contains(x) implies hunks.contains(x) && x < last by {
            let i = choose|i: int| 0 <= i < shorter.len() && shorter[i] == x;
            assert(hunks[i] == x);
        }
        if shorter.len() > 0 {
            let previous = shorter.last();
            assert(shorter[shorter.len() - 1] == previous);
            assert(shorter.contains(previous));
            lemma_flat_hunks_ordered(files, previous, last);
            assert(run_of_one_file(shorter, flat, before[before.len() - 1]));
        }
        let joins = before.len() > 0 && before.last().file == file;
        if joins {
            let old_run = before.last();
            let new_run = FileGroup { file, hunks: old_run.hunks.push(last) };
            assert(groups == before.update(before.len() - 1, new_run));
            assert(run_of_one_file(shorter, flat, before[before.len() - 1]));
            assert(run_of_one_file(hunks, flat, new_run)) by {
                assert forall|m: int| 0 <= m < new_run.hunks.len() implies hunks.contains(
                    #[trigger] new_run.hunks[m],
                ) && flat[new_run.hunks[m]].0 == new_run.file by {
                    if m < old_run.hunks.len() {
                        assert(new_run.hunks[m] == old_run.hunks[m]);
                        assert(shorter.contains(old_run.hunks[m]));
                    }
                }
                assert forall|m: int, n: int| 0 <= m < n < new_run.hunks.len() implies (
                #[trigger] new_run.hunks[m]) < (#[trigger] new_run.hunks[n]) by {
                    assert(new_run.hunks[m] == old_run.hunks[m]);
                    assert(shorter.contains(old_run.hunks[m]));
                    if n < old_run.hunks.len() {
                        assert(new_run.hunks[n] == old_run.hunks[n]);
                    }
                }
            }
            assert forall|k: int| 0 <= k < groups.len() implies run_of_one_file(
                hunks,
                flat,
                #[trigger] groups[k],
            ) by {
                if k < before.len() - 1 {
                    assert(groups[k] == before[k]);
                    assert(run_of_one_file(shorter, flat, before[k]));
                    assert forall|m: int| 0 <= m < before[k].hunks.len() implies hunks.contains(
                        #[trigger] before[k].hunks[m],
                    ) by {
                        assert(shorter.contains(before[k].hunks[m]));
                    }
                }
            }
            assert forall|j: int, k: int| 0 <= j < k < groups.len() implies (
            #[trigger] groups[j]).file < (#[trigger] groups[k]).file by {
                assert(groups[j] == before[j]);
                assert(before[j].file < before[k].file);
            }
            assert forall|i: int| 0 <= i < hunks.len() implies in_some_run(
                groups,
                #[trigger] hunks[i],
            ) by {
                if i < shorter.len() {
                    assert(shorter[i] == hunks[i]);
                    assert(in_some_run(before, shorter[i]));
                    let (k, m) = choose|k: int, m: int|
                        0 <= k < before.len() && 0 <= m < before[k].hunks.len()
                            && #[trigger] before[k].hunks[m] == shorter[i];
                    assert(groups[k].hunks[m] == hunks[i]);
                } else {
                    assert(groups[groups.len() - 1].hunks[new_run.hunks.len() - 1] == hunks[i]);
                }
            }
        } else {
            let new_run = FileGroup { file, hunks: seq![last] };
            assert(groups == before.push(new_run));
            assert(run_of_one_file(hunks, flat, new_run)) by {
                assert(new_run.hunks[0] == last);
            }
            assert forall|k: int| 0 <= k < groups.len() implies run_of_one_file(
                hunks,
                flat,
                #[trigger] groups[k],
            ) by {
                if k < before.len() {
                    assert(groups[k] == before[k]);
                    assert(run_of_one_file(shorter, flat, before[k]));
                    assert forall|m: int| 0 <= m < before[k].hunks.len() implies hunks.contains(
                        #[trigger] before[k].hunks[m],
                    ) by {
                        assert(shorter.contains(before[k].hunks[m]));
                    }
                }
            }
            assert forall|j: int, k: int| 0 <= j < k < groups.len() implies (
            #[trigger] groups[j]).file < (#[trigger] groups[k]).file by {
                assert(groups[j] == before[j]);
                if k < before.len() {
                    assert(groups[k] == before[k]);
                } else {
                    // The run before the new one ends with the hunk before
                    // the last, whose file the new hunk's file lies beyond.
                    let ends = before[before.len() - 1];
                    assert(run_of_one_file(shorter, flat, ends));
                    assert(flat[ends.hunks[ends.hunks.len() - 1]].0 == ends.file);
                    if j < before.len() - 1 {
                        assert(before[j].file < ends.file);
                    }
                }
            }
            assert forall|i: int| 0 <= i < hunks.len() implies in_some_run(
                groups,
                #[trigger] hunks[i],
            ) by {
                if i < shorter.len() {
                    assert(shorter[i] == hunks[i]);
                    assert(in_some_run(before, shorter[i]));
                    let (k, m) = choose|k: int, m: int|
                        0 <= k < before.len() && 0 <= m < before[k].hunks.len()
                            && #[trigger] before[k].hunks[m] == shorter[i];
                    assert(groups[k].hunks[m] == hunks[i]);
                } else {
                    assert(groups[groups.len() - 1].hunks[0] == hunks[i]);
                }
            }
        }
    }
}

/// Regrouping keeps the order of the diff. In the plan of every commit, each
/// patch holds hunks of its own file only, all of them assigned to that
/// commit, in the order in which the file's section holds them; and the
/// patches of one commit go through the files in the order of the diff, each
/// file once. The plan is a function of the assignment alone, so the order
/// in which the hunks were assigned leaves no trace in it.
pub proof fn lemma_plan_keeps_file_order(s: UiStateView, k: int, p: int)
    requires
        s.wf(),
        0 <= k < plan_spec(s).len(),
        0 <= p < plan_spec(s)[k].patches.len(),
    ensures
        ({
            let plan = plan_spec(s)[k];
            let patch = plan.patches[p];
            let flat = flat_hunks(s.files);
            &&& patch.hunks.len() > 0
            &&& forall|m: int|
                0 <= m < patch.hunks.len() ==> {
                    &&& 0 <= #[trigger] patch.hunks[m] < s.hunk_commits.len()
                    &&& patch.hunks[m] < flat.len()
                    &&& s.hunk_commits[patch.hunks[m]] == Some(plan.commit)
                    &&& flat[patch.hunks[m]].0 == patch.file
                }
            &&& forall|m: int, n: int|
                0 <= m < n < patch.hunks.len() ==> {
                    &&& (#[trigger] patch.hunks[m]) < (#[trigger] patch.hunks[n])
                    &&& flat[patch.hunks[m]].1 < flat[patch.hunks[n]].1
                }
            &&& forall|q: int|
                p < q < plan.patches.len() ==> patch.file < (#[trigger] plan.patches[q]).file
        }),
{
    let plan = plan_spec(s)[k];
    let commit = plan.commit;
    let flat = flat_hunks(s.files);
    let hunks = hunks_of(s.hunk_commits, commit);
    let groups = grouped_by_file(hunks, flat);
    lemma_hunks_of(s.hunk_commits, commit);
    lemma_flat_hunks_len(s.files);
    lemma_runs_in_order(s.files, hunks);
    let patch = plan.patches[p];
    assert(run_of_one_file(hunks, flat, groups[p]));
    assert(patch.hunks == groups[p].hunks);
    assert forall|m: int| 0 <= m < patch.hunks.len() implies {
        &&& 0 <= #[trigger] patch.hunks[m] < s.hunk_commits.len()
        &&& patch.hunks[m] < flat.len()
        &&& s.hunk_commits[patch.hunks[m]] == Some(plan.commit)
        &&& flat[patch.hunks[m]].0 == patch.file
    } by {
        assert(hunks.contains(groups[p].hunks[m]));
        let i = choose|i: int| 0 <= i < hunks.len() && hunks[i] == groups[p].hunks[m];
        assert(0 <= hunks[i] < s.hunk_commits.len());
    }
    assert forall|m: int, n: int| 0 <= m < n < patch.hunks.len() implies {
        &&& (#[trigger] patch.hunks[m]) < (#[trigger] patch.hunks[n])
        &&& flat[patch.hunks[m]].1 < flat[patch.hunks[n]].1
    } by {
        assert(groups[p].hunks[m] < groups[p].hunks[n]);
        assert(0 <= patch.hunks[m] < s.hunk_commits.len());
        assert(0 <= patch.hunks[n] < s.hunk_commits.len());
        lemma_flat_hunks_ordered(s.files, patch.hunks[m], patch.hunks[n]);
    }
    assert forall|q: int| p < q < plan.patches.len() implies patch.file < (
    #[trigger] plan.patches[q]).file by {
        assert(groups[p].file < groups[q].file);
    }
}

/// No assigned hunk is lost: it stands in a patch of the plan of its commit.
pub proof fn lemma_plan_covers_assigned(s: UiStateView, hunk: int)
    requires
        s.wf(),
        0 <= hunk < s.hunk_commits.len(),
        s.hunk_commits[hunk] is Some,
    ensures
        exists|k: int, p: int, m: int|
            {
                &&& 0 <= k < plan_spec(s).len()
                &&& plan_spec(s)[k].commit == s.hunk_commits[hunk]->0
                &&& 0 <= p < plan_spec(s)[k].patches.len()
                &&& 0 <= m < plan_spec(s)[k].patches[p].hunks.len()
                &&& #[trigger] plan_spec(s)[k].patches[p].hunks[m] == hunk
            },
{
    let commit = s.hunk_commits[hunk]->0;
    let order = commit_order(s.hunk_commits);
    let flat = flat_hunks(s.files);
    lemma_commit_order(s.hunk_commits);
    assert(order.contains(commit));
    let k = choose|k: int| 0 <= k < order.len() && order[k] == commit;
    let hunks = hunks_of(s.hunk_commits, commit);
    lemma_hunks_of(s.hunk_commits, commit);
    lemma_flat_hunks_len(s.files);
    lemma_runs_in_order(s.files, hunks);
    assert(hunks.contains(hunk));
    let i = choose|i: int| 0 <= i < hunks.len() && hunks[i] == hunk;
    let groups = grouped_by_file(hunks, flat);
    assert(in_some_run(groups, hunks[i]));
    let (p, m) = choose|p: int, m: int|
        0 <= p < groups.len() && 0 <= m < groups[p].hunks.len() && #[trigger] groups[p].hunks[m]
            == hunk;
    assert(plan_spec(s)[k].patches[p].hunks[m] == hunk);
}

/// No hunk is committed twice: a hunk stands at one place of the plan only.
pub proof fn lemma_plan_holds_each_hunk_once(
    s: UiStateView,
    k1: int,
    p1: int,
    m1: int,
    k2: int,
    p2: int,
    m2: int,
)
    requires
        s.wf(),
        0 <= k1 < plan_spec(s).len(),
        0 <= p1 < plan_spec(s)[k1].patches.len(),
        0 <= m1 < plan_spec(s)[k1].patches[p1].hunks.len(),
        0 <= k2 < plan_spec(s).len(),
        0 <= p2 < plan_spec(s)[k2].patches.len(),
        0 <= m2 < plan_spec(s)[k2].patches[p2].hunks.len(),
        plan_spec(s)[k1].patches[p1].hunks[m1] == plan_spec(s)[k2].patches[p2].hunks[m2],
    ensures
        k1 == k2,
        p1 == p2,
        m1 == m2,
{
    let one = plan_spec(s)[k1].patches[p1];
    let other = plan_spec(s)[k2].patches[p2];
    let order = commit_order(s.hunk_commits);
    lemma_plan_keeps_file_order(s, k1, p1);
    lemma_plan_keeps_file_order(s, k2, p2);
    lemma_commit_order(s.hunk_commits);
    assert(s.hunk_commits[one.hunks[m1]] == Some(order[k1]));
    assert(s.hunk_commits[other.hunks[m2]] == Some(order[k2]));
    assert(order[k1] == order[k2]);
    assert(k1 == k2);
    if p1 < p2 {
        assert(one.file < plan_spec(s)[k1].patches[p2].file);
    } else if p2 < p1 {
        assert(other.file < plan_spec(s)[k1].patches[p1].file);
    }
    if m1 < m2 {
        assert(one.hunks[m1] < one.hunks[m2]);
    } else if m2 < m1 {
        assert(one.hunks[m2] < one.hunks[m1]);
    }
}

} // verus!
