use vstd::prelude::*;
use crate::segment::FileSectionView;
use crate::plan::hunk_body;
use crate::plan_laws::lemma_flat_hunks_ordered;
use crate::state::{
    flat_hunks, initial_state, is_commit_id, lemma_flat_hunks_at, lemma_flat_hunks_in_files,
    lemma_flat_hunks_index, lemma_flat_hunks_len, CommitId, UiModeView, UiStateView,
};
use crate::step::{hunk_edited, lemma_hunk_total_update, step_spec, EventView, Key};

verus! {

/// The state after a run of keys, all taken in the same round.
pub open spec fn after_keys(s: UiStateView, gen: u64, keys: Seq<Key>) -> UiStateView
    decreases keys.len(),
{
    if keys.len() == 0 {
        s
    } else {
        step_spec(after_keys(s, gen, keys.drop_last()), gen, EventView::Key(keys.last())).0
    }
}

/// A key that changes nothing but the message that is being typed.
pub open spec fn is_typing(key: Key) -> bool {
    key is Char || key is Backspace
}

/// A viewed hunk is one of the hunks, unless there are none.
pub open spec fn views_a_hunk(s: UiStateView, active: usize) -> bool {
    s.hunk_count() == 0 || active < s.hunk_count()
}

/// What holds of a session from its beginning on. While the hunks are
/// browsed nothing is suspended and the viewed hunk exists. While a message
/// is typed or a commit is waited for, exactly the browsing is suspended; a
/// message is typed for a commit id, and the hunk that waits for it is the
/// viewed one.
pub open spec fn settled(s: UiStateView) -> bool {
    match s.active_mode {
        UiModeView::Viewing { active_hunk } => s.previous_modes.len() == 0 && views_a_hunk(
            s,
            active_hunk,
        ),
        UiModeView::Editing { commit, message, assign_to_hunk } => {
            &&& is_commit_id(commit)
            &&& s.previous_modes.len() == 1
            &&& s.previous_modes[0] matches UiModeView::Viewing { active_hunk }
            &&& views_a_hunk(s, active_hunk)
            &&& assign_to_hunk == Some(active_hunk)
        },
        UiModeView::WaitingToEdit => {
            &&& s.previous_modes.len() == 1
            &&& s.previous_modes[0] matches UiModeView::Viewing { active_hunk }
            &&& views_a_hunk(s, active_hunk)
        },
    }
}

/// A session begins settled.
pub proof fn lemma_initial_state_settled(files: Seq<FileSectionView>, message: Seq<char>)
    ensures
        settled(initial_state(files, message)),
{
}

/// No event unsettles a session: the viewed hunk stays one of the hunks, and
/// the depth of the suspended modes stays the number of edits under way.
pub proof fn lemma_step_keeps_settled(s: UiStateView, gen: u64, event: EventView)
    requires
        s.wf(),
        settled(s),
    ensures
        settled(step_spec(s, gen, event).0),
{
    let after = step_spec(s, gen, event).0;
    match event {
        EventView::Key(key) => {
            match s.active_mode {
                UiModeView::Viewing { active_hunk } => {},
                UiModeView::Editing { commit, message, assign_to_hunk } => {
                    assert(s.previous_modes.drop_last().len() == 0);
                },
                UiModeView::WaitingToEdit => {
                    assert(s.previous_modes.drop_last().len() == 0);
                },
            }
        },
        EventView::HunkEdited(text) => {
            match (s.active_mode, text) {
                (UiModeView::Viewing { active_hunk }, Some(t)) => {
                    if active_hunk < s.hunk_count() {
                        lemma_flat_hunks_len(s.files);
                        lemma_flat_hunks_in_files(s.files, active_hunk as int);
                        let (file, hunk) = flat_hunks(s.files)[active_hunk as int];
                        lemma_hunk_total_update(
                            s.files,
                            file,
                            FileSectionView {
                                hunks: s.files[file].hunks.remove(hunk),
                                ..s.files[file]
                            },
                        );
                        lemma_hunk_total_update(
                            s.files,
                            file,
                            FileSectionView { hunks: s.files[file].hunks.push(t), ..s.files[file] },
                        );
                    }
                },
                _ => {},
            }
        },
        _ => {},
    }
}

/// A message that is typed and then given up leaves no trace. From browsing,
/// the key of a commit that has no message yet begins the typing of one;
/// whatever is typed then, Escape brings back the state from before that key,
/// and with it the commit of every hunk.
pub proof fn lemma_escape_discards_edit(
    s: UiStateView,
    gen: u64,
    commit: CommitId,
    typed: Seq<Key>,
)
    requires
        s.active_mode is Viewing,
        is_commit_id(commit),
        !s.messages.dom().contains(commit),
        forall|i: int| 0 <= i < typed.len() ==> is_typing(#[trigger] typed[i]),
    ensures
        after_keys(s, gen, seq![Key::Char(commit)] + typed + seq![Key::Esc]) == s,
        after_keys(s, gen, seq![Key::Char(commit)] + typed + seq![Key::Esc]).hunk_commits
            == s.hunk_commits,
{
    let keys = seq![Key::Char(commit)] + typed;
    lemma_typing_keeps_the_rest(s, gen, commit, typed);
    let editing = after_keys(s, gen, keys);
    assert((keys + seq![Key::Esc]).drop_last() =~= keys);
    assert(s.previous_modes.push(s.active_mode).drop_last() =~= s.previous_modes);
}

/// After the key of a new commit and any typing, the state differs from the
/// one before only in that the typing is the active mode and the browsing is
/// suspended.
proof fn lemma_typing_keeps_the_rest(s: UiStateView, gen: u64, commit: CommitId, typed: Seq<Key>)
    requires
        s.active_mode is Viewing,
        is_commit_id(commit),
        !s.messages.dom().contains(commit),
        forall|i: int| 0 <= i < typed.len() ==> is_typing(#[trigger] typed[i]),
    ensures
        ({
            let after = after_keys(s, gen, seq![Key::Char(commit)] + typed);
            &&& after.active_mode is Editing
            &&& after == (UiStateView {
                active_mode: after.active_mode,
                previous_modes: s.previous_modes.push(s.active_mode),
                ..s
            })
        }),
    decreases typed.len(),
{
    let keys = seq![Key::Char(commit)] + typed;
    if typed.len() == 0 {
        assert(keys.drop_last() =~= Seq::<Key>::empty());
        assert(keys.last() == Key::Char(commit));
        assert(after_keys(s, gen, keys.drop_last()) == s);
    } else {
        assert(keys.drop_last() =~= seq![Key::Char(commit)] + typed.drop_last());
        assert(keys.last() == typed.last());
        assert(is_typing(typed[typed.len() - 1]));
        assert forall|i: int| 0 <= i < typed.drop_last().len() implies is_typing(
            #[trigger] typed.drop_last()[i],
        ) by {
            assert(typed.drop_last()[i] == typed[i]);
        }
        lemma_typing_keeps_the_rest(s, gen, commit, typed.drop_last());
    }
}

/// Editing a hunk by hand leaves the hunks before it where they are. What
/// the editor hands in is put at the end of the file's hunks, and the edited
/// hunk is taken out only then: so every hunk before the viewed one keeps
/// its flattened index, its place, its body and its commit.
pub proof fn lemma_edit_keeps_earlier_hunks(s: UiStateView, text: Seq<char>, hunk: int)
    requires
        s.wf(),
        s.active_mode matches UiModeView::Viewing { active_hunk } && hunk < active_hunk
            && active_hunk < s.hunk_count(),
        0 <= hunk,
    ensures
        ({
            let after = hunk_edited(s, Some(text)).0;
            &&& hunk < after.hunk_count()
            &&& flat_hunks(after.files)[hunk] == flat_hunks(s.files)[hunk]
            &&& hunk_body(after.files, hunk) == hunk_body(s.files, hunk)
            &&& after.commit_of(hunk) == s.commit_of(hunk)
        }),
{
    let active = s.active_mode->Viewing_active_hunk as int;
    let after = hunk_edited(s, Some(text)).0;
    let flat = flat_hunks(s.files);
    lemma_flat_hunks_len(s.files);
    lemma_flat_hunks_len(after.files);
    lemma_flat_hunks_in_files(s.files, active);
    lemma_flat_hunks_in_files(s.files, hunk);
    lemma_flat_hunks_ordered(s.files, hunk, active);
    lemma_flat_hunks_index(s.files, hunk);
    let (file, place) = flat[active];
    let (f, h) = flat[hunk];
    if after.files != s.files {
        let changed = after.files[file];
        assert(after.files == s.files.update(file, changed));
        assert(after.files.take(f) =~= s.files.take(f));
        lemma_hunk_total_update(s.files, file, changed);
        assert(h < after.files[f].hunks.len());
        lemma_flat_hunks_at(after.files, f, h);
    }
}

} // verus!
