use vstd::prelude::*;
use crate::segment::{hunk_total, FileSection, FileSectionView};

verus! {

/// Names one of the commits that hunks are assigned to: a decimal digit.
pub type CommitId = char;

/// The commit that stands for the commit being split.
pub const ORIGINAL_COMMIT: CommitId = '0';

/// Whether a character is a commit id: one of the ten decimal digits.
pub open spec fn is_commit_id(c: char) -> bool {
    '0' <= c && c <= '9'
}

/// The place of a commit id among the ten ids.
pub open spec fn slot_of(c: char) -> int {
    c as int - '0' as int
}

/// The commit id at a place among the ten ids.
pub open spec fn id_at(slot: int) -> char {
    (slot + '0' as int) as char
}

/// The ten commit ids in their order.
pub open spec fn commit_ids() -> Seq<CommitId> {
    Seq::new(10, |slot: int| id_at(slot))
}

/// What is known of one target commit.
#[derive(Clone, Debug, PartialEq, Eq)]
pub struct CommitInfo {
    pub message: String,
}

/// The messages of the commits, by commit id.
#[derive(Clone, Debug, PartialEq, Eq)]
pub struct CommitTable {
    slots: Vec<Option<CommitInfo>>,
}

impl View for CommitTable {
    type V = Map<CommitId, Seq<char>>;

    closed spec fn view(&self) -> Map<CommitId, Seq<char>> {
        Map::new(
            |c: char| is_commit_id(c) && slot_of(c) < self.slots.len() && self.slots[slot_of(c)] is Some,
            |c: char| self.slots[slot_of(c)]->0.message@,
        )
    }
}

/// The place of a character among the ten commit ids, if it is one.
pub fn commit_slot(id: CommitId) -> (slot: Option<usize>)
    ensures
        slot is Some <==> is_commit_id(id),
        slot matches Some(s) ==> s == slot_of(id) && s < 10,
{
    if '0' <= id && id <= '9' {
        Some((id as u32 - '0' as u32) as usize)
    } else {
        None
    }
}

impl CommitTable {
    /// A table without any commit.
    pub fn new() -> (table: CommitTable)
        ensures
            table@ == Map::<CommitId, Seq<char>>::empty(),
    {
        let table = CommitTable { slots: Vec::new() };
        assert(table@ =~= Map::<CommitId, Seq<char>>::empty());
        table
    }

    /// Every key of the table is a commit id.
    pub proof fn lemma_keys_are_commit_ids(&self)
        ensures
            forall|c: char| self@.dom().contains(c) ==> is_commit_id(c),
    {
    }

    /// Whether the table holds a message for `id`.
    pub fn contains_key(&self, id: CommitId) -> (b: bool)
        ensures
            b == self@.dom().contains(id),
    {
        match commit_slot(id) {
            Some(slot) => slot < self.slots.len() && self.slots[slot].is_some(),
            None => false,
        }
    }

    /// The message of `id`, if the table holds one.
    pub fn get(&self, id: CommitId) -> (info: Option<&CommitInfo>)
        ensures
            info is Some <==> self@.dom().contains(id),
            info matches Some(i) ==> i.message@ == self@[id],
    {
        match commit_slot(id) {
            Some(slot) => if slot < self.slots.len() {
                self.slots[slot].as_ref()
            } else {
                None
            },
            None => None,
        }
    }

    /// Sets the message of `id`. Returns whether `id` is a commit id; if it is
    /// not, the table stays as it is.
    pub fn insert(&mut self, id: CommitId, info: CommitInfo) -> (stored: bool)
        ensures
            stored == is_commit_id(id),
            stored ==> final(self)@ == old(self)@.insert(id, info.message@),
            !stored ==> final(self)@ == old(self)@,
    {
        match commit_slot(id) {
            Some(slot) => {
                let ghost message = info.message@;
                while self.slots.len() <= slot
                    invariant
                        self@ == old(self)@,
                    decreases slot + 1 - self.slots.len(),
                {
                    let ghost before = self@;
                    self.slots.push(None);
                    assert(self@ =~= before);
                }
                self.slots.set(slot, Some(info));
                assert(self@ =~= old(self)@.insert(id, message)) by {
                    assert forall|c: char| is_commit_id(c) && c != id implies slot_of(c)
                        != slot_of(id) by {}
                }
                true
            },
            None => false,
        }
    }

    /// The number of commits in the table.
    pub fn len(&self) -> (n: usize)
        ensures
            n == self@.dom().len(),
            n <= 10,
    {
        let ids = self.ids();
        ids.len()
    }

    /// The commit ids of the table, in increasing order.
    pub fn ids(&self) -> (ids: Vec<CommitId>)
        ensures
            ids@.no_duplicates(),
            ids@.to_set() == self@.dom(),
            ids@.len() == self@.dom().len(),
            ids@.len() <= 10,
            forall|i: int, j: int| 0 <= i < j < ids@.len() ==> ids@[i] < ids@[j],
    {
        let mut ids: Vec<CommitId> = Vec::new();
        let mut slot: u8 = 0;
        while slot < 10
            invariant
                slot <= 10,
                ids@.len() <= slot,
                forall|i: int|
                    0 <= i < ids@.len() ==> is_commit_id(#[trigger] ids@[i]) && slot_of(ids@[i])
                        < slot && self@.dom().contains(ids@[i]),
                forall|i: int, j: int| 0 <= i < j < ids@.len() ==> ids@[i] < ids@[j],
                forall|c: char| self@.dom().contains(c) && slot_of(c) < slot ==> ids@.contains(c),
            decreases 10 - slot,
        {
            if (slot as usize) < self.slots.len() && self.slots[slot as usize].is_some() {
                let id = (48u8 + slot) as char;
                assert(slot_of(id) == slot);
                let ghost before = ids@;
                ids.push(id);
                assert forall|c: char| self@.dom().contains(c) && slot_of(c) < slot
                    + 1 implies ids@.contains(c) by {
                    if slot_of(c) < slot {
                        assert(before.contains(c));
                        let k = choose|k: int| 0 <= k < before.len() && before[k] == c;
                        assert(ids@[k] == c);
                    } else {
                        assert(c == id);
                        assert(ids@[ids@.len() - 1] == c);
                    }
                }
            }
            slot += 1;
        }
        proof {
            assert(ids@.no_duplicates());
            assert(ids@.to_set() =~= self@.dom());
            ids@.unique_seq_to_set();
        }
        ids
    }
}

/// What the session is doing.
#[derive(Clone, Debug, PartialEq, Eq)]
pub enum UiMode {
    /// A commit message is being typed. When it is confirmed, the hunk in
    /// `assign_to_hunk`, if any, is assigned to the commit.
    Editing { commit: CommitId, message: Vec<char>, assign_to_hunk: Option<usize> },
    /// The hunks are browsed.
    Viewing { active_hunk: usize },
    /// The next key names the commit whose message is to be revised.
    WaitingToEdit,
}

/// A mode as contracts speak of it.
pub enum UiModeView {
    Editing { commit: CommitId, message: Seq<char>, assign_to_hunk: Option<usize> },
    Viewing { active_hunk: usize },
    WaitingToEdit,
}

impl View for UiMode {
    type V = UiModeView;

    open spec fn view(&self) -> UiModeView {
        match *self {
            UiMode::Editing { commit, message, assign_to_hunk } => UiModeView::Editing {
                commit,
                message: message@,
                assign_to_hunk,
            },
            UiMode::Viewing { active_hunk } => UiModeView::Viewing { active_hunk },
            UiMode::WaitingToEdit => UiModeView::WaitingToEdit,
        }
    }
}

impl DeepView for UiMode {
    type V = UiModeView;

    open spec fn deep_view(&self) -> UiModeView {
        self@
    }
}

/// The mode of a session that has just begun, and the one that `pop_mode`
/// hands out when nothing is suspended.
pub open spec fn default_mode() -> UiModeView {
    UiModeView::Viewing { active_hunk: 0 }
}

impl Default for UiMode {
    fn default() -> (mode: UiMode)
        ensures
            mode@ == default_mode(),
    {
        UiMode::Viewing { active_hunk: 0 }
    }
}

/// Where a hunk stands: in which file section, and at which place in it.
#[derive(Clone, Copy, Debug, PartialEq, Eq, Structural)]
pub struct HunkRef {
    pub file: usize,
    pub hunk: usize,
}

impl View for HunkRef {
    type V = (int, int);

    open spec fn view(&self) -> (int, int) {
        (self.file as int, self.hunk as int)
    }
}

/// The hunks of all files in the order of the diff, each as its file's index
/// and its own index in that file. A hunk's place in this sequence is its
/// flattened index.
pub open spec fn flat_hunks(files: Seq<FileSectionView>) -> Seq<(int, int)>
    decreases files.len(),
{
    if files.len() == 0 {
        Seq::empty()
    } else {
        flat_hunks(files.drop_last()) + Seq::new(
            files.last().hunks.len(),
            |h: int| (files.len() - 1, h),
        )
    }
}

/// The state of one hunk-splitting session.
#[derive(Debug)]
pub struct UiState {
    pub dont_save: bool,
    pub files: Vec<FileSection>,
    pub force_redraw_gen: u64,
    pub force_redraw_terminal_size: (u16, u16),
    pub allow_partial: bool,
    pub active_mode: UiMode,
    pub previous_modes: Vec<UiMode>,
    pub messages: CommitTable,
    pub hunk_commits: Vec<Option<CommitId>>,
}

/// A state as contracts speak of it.
pub struct UiStateView {
    pub dont_save: bool,
    pub files: Seq<FileSectionView>,
    pub force_redraw_gen: u64,
    pub force_redraw_terminal_size: (u16, u16),
    pub allow_partial: bool,
    pub active_mode: UiModeView,
    pub previous_modes: Seq<UiModeView>,
    pub messages: Map<CommitId, Seq<char>>,
    pub hunk_commits: Seq<Option<CommitId>>,
}

impl View for UiState {
    type V = UiStateView;

    open spec fn view(&self) -> UiStateView {
        UiStateView {
            dont_save: self.dont_save,
            files: self.files.deep_view(),
            force_redraw_gen: self.force_redraw_gen,
            force_redraw_terminal_size: self.force_redraw_terminal_size,
            allow_partial: self.allow_partial,
            active_mode: self.active_mode@,
            previous_modes: self.previous_modes.deep_view(),
            messages: self.messages@,
            hunk_commits: self.hunk_commits@,
        }
    }
}

impl UiStateView {
    /// The number of hunks of the session.
    pub open spec fn hunk_count(self) -> nat {
        hunk_total(self.files)
    }

    /// The commit that a hunk is assigned to, if any.
    pub open spec fn commit_of(self, hunk: int) -> Option<CommitId> {
        if 0 <= hunk < self.hunk_commits.len() {
            self.hunk_commits[hunk]
        } else {
            None
        }
    }

    /// Every hunk has its slot, and no slot is unset.
    pub open spec fn all_hunks_assigned(self) -> bool {
        &&& self.hunk_commits.len() == self.hunk_count()
        &&& forall|i: int| 0 <= i < self.hunk_commits.len() ==> self.hunk_commits[i] is Some
    }

    /// Whether the session's assignment is to be turned into commits.
    pub open spec fn should_save(self) -> bool {
        !self.dont_save && (self.allow_partial || self.all_hunks_assigned())
    }

    /// What holds of every session state: no slot beyond the hunks, the
    /// hunks can be counted, every key of the messages is a commit id, and
    /// a hunk is only ever assigned to a commit that has a message.
    pub open spec fn wf(self) -> bool {
        &&& self.hunk_commits.len() <= self.hunk_count()
        &&& self.hunk_count() <= usize::MAX
        &&& forall|c: char| self.messages.dom().contains(c) ==> is_commit_id(c)
        &&& forall|i: int|
            0 <= i < self.hunk_commits.len() ==> (#[trigger] self.hunk_commits[i] matches Some(c)
                ==> self.messages.dom().contains(c))
    }
}

/// The flattened order holds every hunk once.
pub proof fn lemma_flat_hunks_len(files: Seq<FileSectionView>)
    ensures
        flat_hunks(files).len() == hunk_total(files),
    decreases files.len(),
{
    if files.len() > 0 {
        lemma_flat_hunks_len(files.drop_last());
    }
}

/// The first files hold no more hunks than all of them.
pub proof fn lemma_hunk_total_grows(files: Seq<FileSectionView>, n: int)
    requires
        0 <= n <= files.len(),
    ensures
        hunk_total(files.take(n)) <= hunk_total(files),
    decreases files.len(),
{
    if n == files.len() {
        assert(files.take(n) =~= files);
    } else {
        assert(files.drop_last().take(n) =~= files.take(n));
        lemma_hunk_total_grows(files.drop_last(), n);
    }
}

/// Every hunk of the flattened order stands in a file section, at a place
/// that the section has.
pub proof fn lemma_flat_hunks_in_files(files: Seq<FileSectionView>, i: int)
    requires
        0 <= i < flat_hunks(files).len(),
    ensures
        0 <= flat_hunks(files)[i].0 < files.len(),
        0 <= flat_hunks(files)[i].1 < files[flat_hunks(files)[i].0].hunks.len(),
    decreases files.len(),
{
    if files.len() > 0 {
        let before = flat_hunks(files.drop_last());
        if i < before.len() {
            lemma_flat_hunks_in_files(files.drop_last(), i);
        }
    }
}

/// The flattened index of a hunk is the number of hunks in the files before
/// its own, and its place in its own file.
pub proof fn lemma_flat_hunks_at(files: Seq<FileSectionView>, file: int, hunk: int)
    requires
        0 <= file < files.len(),
        0 <= hunk < files[file].hunks.len(),
    ensures
        hunk_total(files.take(file)) + hunk < flat_hunks(files).len(),
        flat_hunks(files)[hunk_total(files.take(file)) + hunk] == (file, hunk),
    decreases files.len(),
{
    lemma_flat_hunks_len(files.drop_last());
    if file == files.len() - 1 {
        assert(files.take(file) =~= files.drop_last());
    } else {
        assert(files.drop_last().take(file) =~= files.take(file));
        lemma_flat_hunks_at(files.drop_last(), file, hunk);
    }
}

/// Every flattened index is that of the hunk that stands at it.
pub proof fn lemma_flat_hunks_index(files: Seq<FileSectionView>, i: int)
    requires
        0 <= i < flat_hunks(files).len(),
    ensures
        i == hunk_total(files.take(flat_hunks(files)[i].0)) + flat_hunks(files)[i].1,
    decreases files.len(),
{
    if files.len() > 0 {
        let before = flat_hunks(files.drop_last());
        lemma_flat_hunks_len(files.drop_last());
        if i < before.len() {
            lemma_flat_hunks_index(files.drop_last(), i);
            lemma_flat_hunks_in_files(files.drop_last(), i);
            assert(files.drop_last().take(before[i].0) =~= files.take(before[i].0));
        } else {
            assert(files.take(files.len() - 1) =~= files.drop_last());
        }
    }
}

/// The number of hunks of the files, where it can be counted.
pub fn count_hunks(files: &Vec<FileSection>) -> (count: Option<usize>)
    ensures
        count is Some <==> hunk_total(files.deep_view()) <= usize::MAX,
        count matches Some(n) ==> n == hunk_total(files.deep_view()),
{
    let ghost all = files.deep_view();
    let mut count: usize = 0;
    let mut i: usize = 0;
    assert(all.take(0) =~= Seq::empty());
    while i < files.len()
        invariant
            i <= files.len(),
            all == files.deep_view(),
            count == hunk_total(all.take(i as int)),
        decreases files.len() - i,
    {
        proof {
            assert(all.take(i + 1).drop_last() =~= all.take(i as int));
            assert(all.take(i + 1).last().hunks.len() == files[i as int].hunks.len());
            lemma_hunk_total_grows(all, i + 1);
        }
        match count.checked_add(files[i].hunks.len()) {
            Some(sum) => {
                count = sum;
            },
            None => {
                return None;
            },
        }
        i += 1;
    }
    assert(all.take(i as int) =~= all);
    Some(count)
}

/// The state in which a session begins: every hunk stands with the original
/// commit, whose message is the only one, and the first hunk is viewed.
pub open spec fn initial_state(files: Seq<FileSectionView>, original_message: Seq<char>) -> UiStateView {
    UiStateView {
        dont_save: false,
        files,
        force_redraw_gen: 0,
        force_redraw_terminal_size: (0u16, 0u16),
        allow_partial: false,
        active_mode: default_mode(),
        previous_modes: Seq::empty(),
        messages: Map::<CommitId, Seq<char>>::empty().insert(ORIGINAL_COMMIT, original_message),
        hunk_commits: Seq::new(hunk_total(files), |i: int| Some(ORIGINAL_COMMIT)),
    }
}

/// The slots with the one of `hunk` set to `commit`: slots that are missing
/// up to it come into being unset.
pub open spec fn slots_with(slots: Seq<Option<CommitId>>, hunk: int, commit: CommitId) -> Seq<
    Option<CommitId>,
> {
    Seq::new(
        if hunk < slots.len() {
            slots.len()
        } else {
            (hunk + 1) as nat
        },
        |i: int|
            if i == hunk {
                Some(commit)
            } else if i < slots.len() {
                slots[i]
            } else {
                None
            },
    )
}

/// The state with a hunk assigned to a commit. Nothing changes unless the
/// hunk exists and the commit has a message.
pub open spec fn assigned(s: UiStateView, hunk: int, commit: CommitId) -> UiStateView {
    if 0 <= hunk < s.hunk_count() && s.messages.dom().contains(commit) {
        UiStateView { hunk_commits: slots_with(s.hunk_commits, hunk, commit), ..s }
    } else {
        s
    }
}

impl UiState {
    /// Begins a session on the file sections of a diff. There is none where
    /// the hunks are too many to be counted.
    pub fn new(files: Vec<FileSection>, original_message: String) -> (state: Option<UiState>)
        ensures
            state is Some <==> hunk_total(files.deep_view()) <= usize::MAX,
            state matches Some(s) ==> s@ == initial_state(files.deep_view(), original_message@)
                && s@.wf(),
    {
        let count = match count_hunks(&files) {
            Some(count) => count,
            None => {
                return None;
            },
        };
        let mut hunk_commits: Vec<Option<CommitId>> = Vec::new();
        let mut i: usize = 0;
        while i < count
            invariant
                i <= count,
                hunk_commits@ =~= Seq::new(i as nat, |k: int| Some(ORIGINAL_COMMIT)),
            decreases count - i,
        {
            hunk_commits.push(Some(ORIGINAL_COMMIT));
            i += 1;
        }
        let mut messages = CommitTable::new();
        messages.insert(ORIGINAL_COMMIT, CommitInfo { message: original_message });
        let state = UiState {
            dont_save: false,
            files,
            force_redraw_gen: 0,
            force_redraw_terminal_size: (0, 0),
            allow_partial: false,
            active_mode: UiMode::default(),
            previous_modes: Vec::new(),
            messages,
            hunk_commits,
        };
        assert(state.previous_modes.deep_view() =~= Seq::empty());
        Some(state)
    }

    /// Whether the state is well formed.
    pub fn is_well_formed(&self) -> (ok: bool)
        ensures
            ok == self@.wf(),
    {
        proof {
            self.messages.lemma_keys_are_commit_ids();
        }
        let count = match count_hunks(&self.files) {
            Some(count) => count,
            None => {
                return false;
            },
        };
        if self.hunk_commits.len() > count {
            return false;
        }
        let mut i: usize = 0;
        while i < self.hunk_commits.len()
            invariant
                i <= self.hunk_commits.len(),
                forall|k: int|
                    0 <= k < i ==> (#[trigger] self.hunk_commits@[k] matches Some(c)
                        ==> self.messages@.dom().contains(c)),
            decreases self.hunk_commits.len() - i,
        {
            match self.hunk_commits[i] {
                Some(c) => {
                    if !self.messages.contains_key(c) {
                        return false;
                    }
                },
                None => {},
            }
            i += 1;
        }
        true
    }

    /// The number of hunks.
    pub fn hunk_count(&self) -> (count: usize)
        requires
            self@.wf(),
        ensures
            count == self@.hunk_count(),
    {
        match count_hunks(&self.files) {
            Some(count) => count,
            None => 0,
        }
    }

    /// The hunks in the order of the diff.
    pub fn hunks(&self) -> (out: Vec<HunkRef>)
        ensures
            out@.len() == flat_hunks(self@.files).len(),
            forall|i: int| 0 <= i < out@.len() ==> (#[trigger] out@[i])@ == flat_hunks(self@.files)[i],
    {
        let ghost all = self.files.deep_view();
        let mut out: Vec<HunkRef> = Vec::new();
        let mut f: usize = 0;
        assert(all.take(0) =~= Seq::empty());
        while f < self.files.len()
            invariant
                f <= self.files.len(),
                all == self.files.deep_view(),
                out@.len() == flat_hunks(all.take(f as int)).len(),
                forall|i: int|
                    0 <= i < out@.len() ==> (#[trigger] out@[i])@ == flat_hunks(all.take(f as int))[i],
            decreases self.files.len() - f,
        {
            let ghost before = flat_hunks(all.take(f as int));
            let ghost after = flat_hunks(all.take(f + 1));
            proof {
                assert(all.take(f + 1).drop_last() =~= all.take(f as int));
                assert(all.take(f + 1).last().hunks.len() == self.files[f as int].hunks.len());
            }
            let n = self.files[f].hunks.len();
            let mut h: usize = 0;
            while h < n
                invariant
                    h <= n,
                    f < self.files.len(),
                    n == self.files[f as int].hunks.len(),
                    after == before + Seq::new(n as nat, |k: int| (f as int, k)),
                    out@.len() == before.len() + h,
                    forall|i: int| 0 <= i < out@.len() ==> (#[trigger] out@[i])@ == after[i],
                decreases n - h,
            {
                out.push(HunkRef { file: f, hunk: h });
                h += 1;
            }
            f += 1;
        }
        assert(all.take(f as int) =~= all);
        out
    }

    /// Where the hunk with the given flattened index stands, if there is
    /// such a hunk.
    pub fn get_hunk(&self, idx: usize) -> (place: Option<HunkRef>)
        ensures
            place is Some <==> idx < self@.hunk_count(),
            place matches Some(p) ==> p@ == flat_hunks(self@.files)[idx as int],
    {
        proof {
            lemma_flat_hunks_len(self@.files);
        }
        let hunks = self.hunks();
        if idx < hunks.len() {
            let place = hunks[idx];
            Some(place)
        } else {
            None
        }
    }

    /// The body of a hunk, as the editor is to be given it, if there is such
    /// a hunk.
    pub fn hunk_text(&self, idx: usize) -> (text: Option<String>)
        ensures
            text is Some <==> idx < self@.hunk_count(),
            text matches Some(t) ==> t@ == self@.files[flat_hunks(self@.files)[idx as int].0].hunks[flat_hunks(
                self@.files,
            )[idx as int].1],
    {
        proof {
            lemma_flat_hunks_len(self@.files);
            if idx < self@.hunk_count() {
                lemma_flat_hunks_in_files(self@.files, idx as int);
            }
        }
        match self.get_hunk(idx) {
            Some(place) => Some(self.files[place.file].hunks[place.hunk].body.clone()),
            None => None,
        }
    }

    /// The message of a commit, as the editor is to be given it: empty where
    /// the commit has none.
    pub fn message_text(&self, commit: CommitId) -> (text: String)
        ensures
            text@ == if self@.messages.dom().contains(commit) {
                self@.messages[commit]
            } else {
                Seq::empty()
            },
    {
        match self.messages.get(commit) {
            Some(info) => info.message.clone(),
            None => String::new(),
        }
    }

    /// Whether every hunk is assigned to a commit.
    pub fn all_hunks_assigned(&self) -> (all: bool)
        requires
            self@.wf(),
        ensures
            all == self@.all_hunks_assigned(),
    {
        if self.hunk_commits.len() != self.hunk_count() {
            return false;
        }
        let mut i: usize = 0;
        while i < self.hunk_commits.len()
            invariant
                i <= self.hunk_commits.len(),
                forall|k: int| 0 <= k < i ==> self.hunk_commits[k] is Some,
            decreases self.hunk_commits.len() - i,
        {
            if self.hunk_commits[i].is_none() {
                return false;
            }
            i += 1;
        }
        true
    }

    /// Whether the assignment is to be turned into commits: the session was
    /// not abandoned, and every hunk is assigned unless a part is enough.
    pub fn should_save_commits(&self) -> (save: bool)
        requires
            self@.wf(),
        ensures
            save == self@.should_save(),
    {
        !self.dont_save && (self.allow_partial || self.all_hunks_assigned())
    }

    /// Assigns a hunk to a commit, and says whether it did: it does where
    /// the hunk exists and the commit has a message.
    pub fn set_hunk_commit(&mut self, hunk_idx: usize, commit_id: CommitId) -> (done: bool)
        requires
            old(self)@.wf(),
        ensures
            final(self)@ == assigned(old(self)@, hunk_idx as int, commit_id),
            final(self)@.wf(),
            done == (hunk_idx < old(self)@.hunk_count() && old(self)@.messages.dom().contains(
                commit_id,
            )),
    {
        if hunk_idx >= self.hunk_count() || !self.messages.contains_key(commit_id) {
            return false;
        }
        while self.hunk_commits.len() <= hunk_idx
            invariant
                hunk_idx < self@.hunk_count(),
                self@.wf(),
                self.hunk_commits@.len() >= old(self).hunk_commits@.len(),
                self.hunk_commits@.len() <= hunk_idx + 1 || self.hunk_commits@.len() == old(
                    self,
                ).hunk_commits@.len(),
                self@ == (UiStateView { hunk_commits: self.hunk_commits@, ..old(self)@ }),
                forall|i: int|
                    0 <= i < self.hunk_commits@.len() ==> self.hunk_commits@[i] == if i < old(
                        self,
                    ).hunk_commits@.len() {
                        old(self).hunk_commits@[i]
                    } else {
                        None
                    },
            decreases hunk_idx + 1 - self.hunk_commits.len(),
        {
            self.hunk_commits.push(None);
        }
        self.hunk_commits.set(hunk_idx, Some(commit_id));
        assert(self.hunk_commits@ =~= slots_with(old(self).hunk_commits@, hunk_idx as int, commit_id));
        true
    }

    /// Suspends the active mode and makes `mode` the active one.
    pub fn push_mode(&mut self, mode: UiMode)
        ensures
            final(self)@ == (UiStateView {
                active_mode: mode@,
                previous_modes: old(self)@.previous_modes.push(old(self)@.active_mode),
                ..old(self)@
            }),
    {
        let ghost suspended = self.previous_modes.deep_view();
        let mut mode = mode;
        std::mem::swap(&mut self.active_mode, &mut mode);
        self.previous_modes.push(mode);
        assert(self.previous_modes.deep_view() =~= suspended.push(mode@));
    }

    /// Makes `mode` the active mode and hands out the one that was.
    pub fn set_mode(&mut self, mode: UiMode) -> (previous: UiMode)
        ensures
            previous@ == old(self)@.active_mode,
            final(self)@ == (UiStateView { active_mode: mode@, ..old(self)@ }),
    {
        let mut mode = mode;
        std::mem::swap(&mut self.active_mode, &mut mode);
        mode
    }

    /// Resumes the mode that was suspended last and hands out the one that
    /// was active. Where nothing is suspended the state stays as it is, and
    /// the default mode is handed out.
    pub fn pop_mode(&mut self) -> (previous: UiMode)
        ensures
            old(self)@.previous_modes.len() > 0 ==> previous@ == old(self)@.active_mode
                && final(self)@ == (UiStateView {
                active_mode: old(self)@.previous_modes.last(),
                previous_modes: old(self)@.previous_modes.drop_last(),
                ..old(self)@
            }),
            old(self)@.previous_modes.len() == 0 ==> previous@ == default_mode() && final(self)@
                == old(self)@,
    {
        let ghost suspended = self.previous_modes.deep_view();
        match self.previous_modes.pop() {
            Some(mode) => {
                assert(self.previous_modes.deep_view() =~= suspended.drop_last());
                assert(mode@ == suspended.last());
                self.set_mode(mode)
            },
            None => {
                assert(self.previous_modes.deep_view() =~= suspended);
                UiMode::default()
            },
        }
    }
}

} // verus!
