use vstd::prelude::*;
use crate::segment::FileSectionView;
use crate::state::{
    flat_hunks, lemma_flat_hunks_in_files, lemma_flat_hunks_len, CommitId, HunkRef, UiState,
    UiStateView,
};
use crate::text::{
    chars_of, has_prefix, lines, push_char, split_lines, starts_with, trim_end_from, trimmed_end,
};

verus! {

/// The patch of one file within one commit: the file section, the hunks that
/// go into it by their flattened indices, and the text handed to the backend.
#[derive(Clone, Debug, PartialEq, Eq)]
pub struct FilePatch {
    pub file: usize,
    pub hunks: Vec<usize>,
    pub text: String,
}

/// One commit to be made: its id, its message and its patches, file by file.
#[derive(Clone, Debug, PartialEq, Eq)]
pub struct CommitPlan {
    pub commit: CommitId,
    pub message: String,
    pub patches: Vec<FilePatch>,
}

/// A patch as contracts speak of it.
pub struct FilePatchView {
    pub file: int,
    pub hunks: Seq<int>,
    pub text: Seq<char>,
}

/// A commit plan as contracts speak of it.
pub struct CommitPlanView {
    pub commit: CommitId,
    pub message: Seq<char>,
    pub patches: Seq<FilePatchView>,
}

/// Indices as mathematical integers.
pub open spec fn ints(s: Seq<usize>) -> Seq<int> {
    Seq::new(s.len(), |i: int| s[i] as int)
}

impl View for FilePatch {
    type V = FilePatchView;

    open spec fn view(&self) -> FilePatchView {
        FilePatchView { file: self.file as int, hunks: ints(self.hunks@), text: self.text@ }
    }
}

impl DeepView for FilePatch {
    type V = FilePatchView;

    open spec fn deep_view(&self) -> FilePatchView {
        self@
    }
}

impl View for CommitPlan {
    type V = CommitPlanView;

    open spec fn view(&self) -> CommitPlanView {
        CommitPlanView {
            commit: self.commit,
            message: self.message@,
            patches: self.patches.deep_view(),
        }
    }
}

impl DeepView for CommitPlan {
    type V = CommitPlanView;

    open spec fn deep_view(&self) -> CommitPlanView {
        self@
    }
}

/// The commits that hunks are assigned to, each once, in the order in which
/// the hunks come upon them.
pub open spec fn commit_order(slots: Seq<Option<CommitId>>) -> Seq<CommitId>
    decreases slots.len(),
{
    if slots.len() == 0 {
        Seq::empty()
    } else {
        let before = commit_order(slots.drop_last());
        match slots.last() {
            Some(c) => if before.contains(c) {
                before
            } else {
                before.push(c)
            },
            None => before,
        }
    }
}

/// The flattened indices of the hunks assigned to a commit, in increasing
/// order.
pub open spec fn hunks_of(slots: Seq<Option<CommitId>>, commit: CommitId) -> Seq<int>
    decreases slots.len(),
{
    if slots.len() == 0 {
        Seq::empty()
    } else {
        let before = hunks_of(slots.drop_last(), commit);
        if slots.last() == Some(commit) {
            before.push(slots.len() - 1)
        } else {
            before
        }
    }
}

/// Hunks of one file that follow each other in a commit.
pub struct FileGroup {
    pub file: int,
    pub hunks: Seq<int>,
}

/// The hunks cut into runs of the same file, in their order.
pub open spec fn grouped_by_file(hunks: Seq<int>, flat: Seq<(int, int)>) -> Seq<FileGroup>
    decreases hunks.len(),
{
    if hunks.len() == 0 {
        Seq::empty()
    } else {
        let before = grouped_by_file(hunks.drop_last(), flat);
        let file = flat[hunks.last()].0;
        if before.len() > 0 && before.last().file == file {
            before.update(
                before.len() - 1,
                FileGroup { file, hunks: before.last().hunks.push(hunks.last()) },
            )
        } else {
            before.push(FileGroup { file, hunks: seq![hunks.last()] })
        }
    }
}

/// The body of the hunk with the given flattened index.
pub open spec fn hunk_body(files: Seq<FileSectionView>, hunk: int) -> Seq<char> {
    let (f, h) = flat_hunks(files)[hunk];
    files[f].hunks[h]
}

/// The bodies of the hunks, each closed by a line feed.
pub open spec fn bodies_text(files: Seq<FileSectionView>, hunks: Seq<int>) -> Seq<char>
    decreases hunks.len(),
{
    if hunks.len() == 0 {
        Seq::empty()
    } else {
        bodies_text(files, hunks.drop_last()) + hunk_body(files, hunks.last()) + seq!['\n']
    }
}

/// The patch of a file for some of its hunks: the file's header on lines of
/// its own, then each hunk's body on lines of its own.
pub open spec fn patch_text(files: Seq<FileSectionView>, file: int, hunks: Seq<int>) -> Seq<char> {
    files[file].header + seq!['\n'] + bodies_text(files, hunks)
}

/// The patch of a run of hunks of one file.
pub open spec fn patch_of(files: Seq<FileSectionView>, group: FileGroup) -> FilePatchView {
    FilePatchView {
        file: group.file,
        hunks: group.hunks,
        text: patch_text(files, group.file, group.hunks),
    }
}

/// The patches of a commit, one for each run of hunks of the same file.
pub open spec fn patches_of(s: UiStateView, commit: CommitId) -> Seq<FilePatchView> {
    let groups = grouped_by_file(hunks_of(s.hunk_commits, commit), flat_hunks(s.files));
    Seq::new(groups.len(), |k: int| patch_of(s.files, groups[k]))
}

/// The plan of one commit: its message and its patches.
pub open spec fn plan_of(s: UiStateView, commit: CommitId) -> CommitPlanView {
    CommitPlanView { commit, message: s.messages[commit], patches: patches_of(s, commit) }
}

/// The commits to be made, in the order in which they are to be made.
pub open spec fn plan_spec(s: UiStateView) -> Seq<CommitPlanView> {
    let order = commit_order(s.hunk_commits);
    Seq::new(order.len(), |k: int| plan_of(s, order[k]))
}

fn id_at(ids: &Vec<CommitId>, k: usize) -> (id: CommitId)
    requires
        k < ids.len(),
    ensures
        id == ids@[k as int],
{
    ids[k]
}

fn holds(ids: &Vec<CommitId>, id: CommitId) -> (b: bool)
    ensures
        b == ids@.contains(id),
{
    let mut i: usize = 0;
    while i < ids.len()
        invariant
            i <= ids.len(),
            forall|k: int| 0 <= k < i ==> ids@[k] != id,
        decreases ids.len() - i,
    {
        if ids[i] == id {
            return true;
        }
        i += 1;
    }
    false
}

/// The commits that hunks are assigned to, in the order of their first hunk.
pub fn commits_in_order(slots: &Vec<Option<CommitId>>) -> (order: Vec<CommitId>)
    ensures
        order@ == commit_order(slots@),
{
    let mut order: Vec<CommitId> = Vec::new();
    let mut i: usize = 0;
    assert(slots@.take(0) =~= Seq::empty());
    while i < slots.len()
        invariant
            i <= slots.len(),
            order@ == commit_order(slots@.take(i as int)),
        decreases slots.len() - i,
    {
        assert(slots@.take(i + 1).drop_last() =~= slots@.take(i as int));
        match slots[i] {
            Some(c) => {
                if !holds(&order, c) {
                    order.push(c);
                }
            },
            None => {},
        }
        i += 1;
    }
    assert(slots@.take(i as int) =~= slots@);
    order
}

/// The hunks assigned to a commit, by their flattened indices.
pub fn hunks_assigned_to(slots: &Vec<Option<CommitId>>, commit: CommitId) -> (hunks: Vec<usize>)
    ensures
        ints(hunks@) == hunks_of(slots@, commit),
{
    let mut hunks: Vec<usize> = Vec::new();
    let mut i: usize = 0;
    assert(slots@.take(0) =~= Seq::empty());
    assert(ints(hunks@) =~= Seq::empty());
    while i < slots.len()
        invariant
            i <= slots.len(),
            ints(hunks@) == hunks_of(slots@.take(i as int), commit),
        decreases slots.len() - i,
    {
        assert(slots@.take(i + 1).drop_last() =~= slots@.take(i as int));
        let ghost before = ints(hunks@);
        match slots[i] {
            Some(c) => {
                if c == commit {
                    hunks.push(i);
                    assert(ints(hunks@) =~= before.push(i as int));
                }
            },
            None => {},
        }
        i += 1;
    }
    assert(slots@.take(i as int) =~= slots@);
    hunks
}

/// The hunks of a commit are hunks that have a slot, each assigned to the
/// commit, in increasing order.
pub proof fn lemma_hunks_of(slots: Seq<Option<CommitId>>, commit: CommitId)
    ensures
        forall|k: int|
            0 <= k < hunks_of(slots, commit).len() ==> 0 <= (#[trigger] hunks_of(slots, commit)[k])
                < slots.len() && slots[hunks_of(slots, commit)[k]] == Some(commit),
        forall|j: int, k: int|
            0 <= j < k < hunks_of(slots, commit).len() ==> hunks_of(slots, commit)[j] < hunks_of(
                slots,
                commit,
            )[k],
        forall|i: int|
            0 <= i < slots.len() && slots[i] == Some(commit) ==> hunks_of(slots, commit).contains(i),
    decreases slots.len(),
{
    if slots.len() > 0 {
        let shorter = slots.drop_last();
        lemma_hunks_of(shorter, commit);
        let before = hunks_of(shorter, commit);
        let all = hunks_of(slots, commit);
        assert forall|k: int| 0 <= k < all.len() implies 0 <= (#[trigger] all[k]) < slots.len()
            && slots[all[k]] == Some(commit) by {
            if k < before.len() {
                assert(all[k] == before[k]);
                assert(slots[before[k]] == shorter[before[k]]);
            }
        }
        assert forall|j: int, k: int| 0 <= j < k < all.len() implies all[j] < all[k] by {
            assert(all[j] == before[j]);
            if k < before.len() {
                assert(all[k] == before[k]);
            }
        }
        assert forall|i: int| 0 <= i < slots.len() && slots[i] == Some(commit) implies all.contains(
            i,
        ) by {
            if i < shorter.len() {
                assert(shorter[i] == slots[i]);
                assert(before.contains(i));
                let k = choose|k: int| 0 <= k < before.len() && before[k] == i;
                assert(all[k] == i);
            } else {
                assert(all[all.len() - 1] == i);
            }
        }
    }
}

impl UiState {
    /// The patches of a commit, file by file, from the table of the hunks.
    fn patches_for(&self, table: &Vec<HunkRef>, commit: CommitId) -> (patches: Vec<FilePatch>)
        requires
            self@.wf(),
            table@.len() == flat_hunks(self@.files).len(),
            forall|i: int| 0 <= i < table@.len() ==> (#[trigger] table@[i])@ == flat_hunks(self@.files)[i],
        ensures
            patches.deep_view() == patches_of(self@, commit),
    {
        let ghost files = self@.files;
        let ghost flat = flat_hunks(files);
        let hunks = hunks_assigned_to(&self.hunk_commits, commit);
        let ghost wanted = ints(hunks@);
        proof {
            lemma_hunks_of(self.hunk_commits@, commit);
            lemma_flat_hunks_len(files);
        }
        let mut patches: Vec<FilePatch> = Vec::new();
        let mut i: usize = 0;
        assert(wanted.take(0) =~= Seq::empty());
        assert(patches.deep_view() =~= Seq::empty());
        while i < hunks.len()
            invariant
                i <= hunks.len(),
                self@.wf(),
                files == self@.files,
                flat == flat_hunks(files),
                wanted == ints(hunks@),
                wanted == hunks_of(self.hunk_commits@, commit),
                forall|k: int|
                    0 <= k < wanted.len() ==> 0 <= (#[trigger] wanted[k]) < self.hunk_commits@.len(),
                table@.len() == flat.len(),
                flat.len() == self@.hunk_count(),
                forall|k: int| 0 <= k < table@.len() ==> (#[trigger] table@[k])@ == flat[k],
                patches.deep_view().len() == grouped_by_file(wanted.take(i as int), flat).len(),
                forall|k: int|
                    0 <= k < patches.deep_view().len() ==> #[trigger] patches.deep_view()[k]
                        == patch_of(files, grouped_by_file(wanted.take(i as int), flat)[k]),
            decreases hunks.len() - i,
        {
            let idx = hunks[i];
            let ghost groups = grouped_by_file(wanted.take(i as int), flat);
            let ghost done = patches.deep_view();
            proof {
                assert(wanted.take(i + 1).drop_last() =~= wanted.take(i as int));
                assert(wanted.take(i + 1).last() == idx as int);
                assert(wanted[i as int] == idx);
                lemma_flat_hunks_in_files(files, idx as int);
            }
            let place = table[idx];
            assert(place@ == flat[idx as int]);
            let body = self.files[place.file].hunks[place.hunk].body.as_str();
            assert(body@ == hunk_body(files, idx as int));
            let joins = patches.len() > 0 && patches[patches.len() - 1].file == place.file;
            if joins {
                assert(done.last() == patch_of(files, groups.last()));
                let mut last = patches.pop().unwrap();
                assert(last@ == done.last());
                let ghost text = last.text@;
                let ghost members = last.hunks@;
                last.hunks.push(idx);
                last.text.append(body);
                push_char(&mut last.text, '\n');
                proof {
                    assert(ints(last.hunks@) =~= ints(members).push(idx as int));
                    assert(ints(last.hunks@).drop_last() =~= ints(members));
                    assert(last.text@ =~= patch_text(files, place.file as int, ints(last.hunks@)));
                }
                patches.push(last);
                proof {
                    assert(patches.deep_view() =~= done.update(done.len() - 1, last@));
                }
            } else {
                let mut text = self.files[place.file].header.clone();
                push_char(&mut text, '\n');
                text.append(body);
                push_char(&mut text, '\n');
                let mut members: Vec<usize> = Vec::new();
                members.push(idx);
                let patch = FilePatch { file: place.file, hunks: members, text };
                proof {
                    assert(ints(patch.hunks@) =~= seq![idx as int]);
                    assert(seq![idx as int].drop_last() =~= Seq::<int>::empty());
                    assert(bodies_text(files, Seq::<int>::empty()) =~= Seq::<char>::empty());
                    assert(seq![idx as int].last() == idx as int);
                    assert(bodies_text(files, seq![idx as int]) =~= hunk_body(files, idx as int)
                        + seq!['\n']);
                    assert(patch.text@ =~= patch_text(files, place.file as int, seq![idx as int]));
                    if done.len() > 0 {
                        assert(done.last() == patch_of(files, groups.last()));
                    }
                }
                patches.push(patch);
                proof {
                    assert(patches.deep_view() =~= done.push(patch@));
                }
            }
            i += 1;
        }
        proof {
            assert(wanted.take(i as int) =~= wanted);
            assert(patches.deep_view() =~= patches_of(self@, commit));
        }
        patches
    }

    /// The commits to be made from the assignment, in the order in which
    /// they are to be made, each with its patches file by file.
    pub fn commit_plans(&self) -> (plans: Vec<CommitPlan>)
        requires
            self@.wf(),
        ensures
            plans.deep_view() == plan_spec(self@),
    {
        let table = self.hunks();
        let order = commits_in_order(&self.hunk_commits);
        let mut made: Vec<CommitPlan> = Vec::new();
        let mut k: usize = 0;
        while k < order.len()
            invariant
                k <= order.len(),
                self@.wf(),
                order@ == commit_order(self.hunk_commits@),
                table@.len() == flat_hunks(self@.files).len(),
                forall|i: int|
                    0 <= i < table@.len() ==> (#[trigger] table@[i])@ == flat_hunks(self@.files)[i],
                made@.len() == k,
                forall|j: int| 0 <= j < k ==> (#[trigger] made@[j])@ == plan_of(self@, order@[j]),
            decreases order.len() - k,
        {
            let commit = id_at(&order, k);
            assert(self@.messages.dom().contains(commit)) by {
                lemma_commit_order(self.hunk_commits@);
                assert(self.hunk_commits@.contains(Some(order@[k as int])));
            }
            let message = self.message_text(commit);
            let patches = self.patches_for(&table, commit);
            let plan = CommitPlan { commit, message, patches };
            assert(plan@ == plan_of(self@, commit));
            made.push(plan);
            k += 1;
        }
        assert(made.deep_view() =~= plan_spec(self@));
        made
    }
}

/// Every commit of the order is the commit of some hunk, and none comes
/// twice.
pub proof fn lemma_commit_order(slots: Seq<Option<CommitId>>)
    ensures
        commit_order(slots).no_duplicates(),
        forall|k: int|
            0 <= k < commit_order(slots).len() ==> slots.contains(
                Some(#[trigger] commit_order(slots)[k]),
            ),
        forall|i: int|
            0 <= i < slots.len() ==> (#[trigger] slots[i] matches Some(c) ==> commit_order(
                slots,
            ).contains(c)),
    decreases slots.len(),
{
    if slots.len() > 0 {
        let shorter = slots.drop_last();
        lemma_commit_order(shorter);
        let before = commit_order(shorter);
        let all = commit_order(slots);
        assert forall|k: int| 0 <= k < all.len() implies slots.contains(Some(#[trigger] all[k])) by {
            if k < before.len() {
                assert(all[k] == before[k]);
                assert(shorter.contains(Some(before[k])));
                let i = choose|i: int| 0 <= i < shorter.len() && shorter[i] == Some(before[k]);
                assert(slots[i] == Some(before[k]));
            } else {
                assert(slots[slots.len() - 1] == Some(all[k]));
            }
        }
        assert forall|i: int| 0 <= i < slots.len() implies (#[trigger] slots[i] matches Some(c)
            ==> all.contains(c)) by {
            match slots[i] {
                Some(c) => {
                    if i < shorter.len() {
                        assert(shorter[i] == slots[i]);
                        assert(before.contains(c));
                        let k = choose|k: int| 0 <= k < before.len() && before[k] == c;
                        assert(all[k] == c);
                    } else if before.contains(c) {
                        let k = choose|k: int| 0 <= k < before.len() && before[k] == c;
                        assert(all[k] == c);
                    } else {
                        assert(all[all.len() - 1] == c);
                    }
                },
                None => {},
            }
        }
    }
}

/// How a line of the backend's report begins that names a patched file.
pub const PATCHING_FILE: &'static str = "patching file ";

/// The path that a line of the report names, if it names one: what follows
/// the words "patching file", without the white space at its end.
pub open spec fn patched_path(line: Seq<char>) -> Option<Seq<char>> {
    if starts_with(line, PATCHING_FILE@) {
        Some(trimmed_end(line.skip(PATCHING_FILE@.len() as int)))
    } else {
        None
    }
}

/// The paths that the lines of a report name, in their order.
pub open spec fn patched_paths_of(lines: Seq<Seq<char>>) -> Seq<Seq<char>>
    decreases lines.len(),
{
    if lines.len() == 0 {
        Seq::empty()
    } else {
        let before = patched_paths_of(lines.drop_last());
        match patched_path(lines.last()) {
            Some(path) => before.push(path),
            None => before,
        }
    }
}

/// The paths that the backend reports as patched. They are the paths to be
/// staged after a patch has been applied.
pub fn patched_paths(report: &str) -> (paths: Vec<String>)
    ensures
        paths.deep_view() == patched_paths_of(split_lines(report@)),
{
    let all = lines(report);
    let prefix = chars_of(PATCHING_FILE);
    let ghost texts = split_lines(report@);
    let mut paths: Vec<String> = Vec::new();
    let mut i: usize = 0;
    assert(texts.take(0) =~= Seq::empty());
    assert(paths.deep_view() =~= Seq::empty());
    while i < all.len()
        invariant
            i <= all.len(),
            texts == all.deep_view(),
            prefix@ == PATCHING_FILE@,
            paths.deep_view() == patched_paths_of(texts.take(i as int)),
        decreases all.len() - i,
    {
        let line = chars_of(all[i].as_str());
        proof {
            assert(texts.take(i + 1).drop_last() =~= texts.take(i as int));
            assert(texts.take(i + 1).last() == line@);
        }
        if has_prefix(&line, &prefix) {
            let ghost before = paths.deep_view();
            let path = trim_end_from(&line, prefix.len());
            paths.push(path);
            assert(paths.deep_view() =~= before.push(path@));
        }
        i += 1;
    }
    assert(texts.take(i as int) =~= texts);
    paths
}

/// What is to be made of a session that is over.
#[derive(Clone, Debug, PartialEq, Eq)]
pub enum Outcome {
    /// Nothing is committed, and the rebase is given up.
    Abort,
    /// The commits are made in their order. After them the working tree is
    /// checked against the commit that was split, unless hunks were left
    /// without a commit.
    Commit { plans: Vec<CommitPlan>, check_clean: bool },
}

/// An outcome as contracts speak of it.
pub enum OutcomeView {
    Abort,
    Commit { plans: Seq<CommitPlanView>, check_clean: bool },
}

impl View for Outcome {
    type V = OutcomeView;

    open spec fn view(&self) -> OutcomeView {
        match *self {
            Outcome::Abort => OutcomeView::Abort,
            Outcome::Commit { plans, check_clean } => OutcomeView::Commit {
                plans: plans.deep_view(),
                check_clean,
            },
        }
    }
}

/// The outcome of a session: its commits where it is to be saved, with the
/// check of the working tree where every hunk is assigned.
pub open spec fn outcome_of(s: UiStateView) -> OutcomeView {
    if s.should_save() {
        OutcomeView::Commit { plans: plan_spec(s), check_clean: s.all_hunks_assigned() }
    } else {
        OutcomeView::Abort
    }
}

impl UiState {
    /// What is to be made of the session now that it is over.
    pub fn outcome(&self) -> (outcome: Outcome)
        requires
            self@.wf(),
        ensures
            outcome@ == outcome_of(self@),
    {
        if self.should_save_commits() {
            Outcome::Commit { plans: self.commit_plans(), check_clean: self.all_hunks_assigned() }
        } else {
            Outcome::Abort
        }
    }
}

} // verus!
