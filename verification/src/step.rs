use vstd::prelude::*;
use crate::segment::{hunk_total, FileSectionView, Hunk};
use crate::state::{
    assigned, flat_hunks, is_commit_id, lemma_flat_hunks_in_files, lemma_flat_hunks_len, CommitId,
    CommitInfo, UiMode, UiModeView, UiState, UiStateView,
};
use crate::text::{blank, is_blank, string_of};

verus! {

/// A key of the terminal.
#[derive(Clone, Copy, Debug, PartialEq, Eq, Structural)]
pub enum Key {
    Backspace,
    Left,
    Right,
    Esc,
    /// A character key.
    Char(char),
    /// A character key pressed together with Ctrl.
    Ctrl(char),
    /// Any other key.
    Other,
}

/// What happened outside the session since its last step.
#[derive(Clone, Debug, PartialEq, Eq)]
pub enum Event {
    /// A key was pressed.
    Key(Key),
    /// There will be no more keys.
    EndOfKeys,
    /// The editor was run on a hunk: its text, unless the editor failed.
    HunkEdited(Option<String>),
    /// The editor was run on the message of a commit: its text, unless the
    /// editor failed.
    MessageEdited(CommitId, Option<String>),
    /// The pager was run: whether it ran and ended.
    Paged(bool),
}

/// An event as contracts speak of it.
pub enum EventView {
    Key(Key),
    EndOfKeys,
    HunkEdited(Option<Seq<char>>),
    MessageEdited(CommitId, Option<Seq<char>>),
    Paged(bool),
}

impl View for Event {
    type V = EventView;

    open spec fn view(&self) -> EventView {
        match *self {
            Event::Key(key) => EventView::Key(key),
            Event::EndOfKeys => EventView::EndOfKeys,
            Event::HunkEdited(text) => EventView::HunkEdited(
                match text {
                    Some(t) => Some(t@),
                    None => None,
                },
            ),
            Event::MessageEdited(commit, text) => EventView::MessageEdited(
                commit,
                match text {
                    Some(t) => Some(t@),
                    None => None,
                },
            ),
            Event::Paged(ran) => EventView::Paged(ran),
        }
    }
}

/// What is to happen outside the session before its next step.
#[derive(Clone, Copy, Debug, PartialEq, Eq, Structural)]
pub enum Action {
    /// Draw if need be, read a key and hand it in.
    ReadKey,
    /// Run the editor on the body of the hunk and hand in `HunkEdited`.
    EditHunk { hunk: usize },
    /// Run the editor on the message of the commit and hand in
    /// `MessageEdited`.
    EditMessage { commit: CommitId },
    /// Show the hunk in the pager and hand in `Paged`.
    Page { hunk: usize },
    /// The session is over.
    Finish,
}

/// The state with `mode` active and the mode that was active suspended.
pub open spec fn pushed(s: UiStateView, mode: UiModeView) -> UiStateView {
    UiStateView { active_mode: mode, previous_modes: s.previous_modes.push(s.active_mode), ..s }
}

/// The state with the mode resumed that was suspended last, if any was.
pub open spec fn popped(s: UiStateView) -> UiStateView {
    if s.previous_modes.len() > 0 {
        UiStateView {
            active_mode: s.previous_modes.last(),
            previous_modes: s.previous_modes.drop_last(),
            ..s
        }
    } else {
        s
    }
}

/// The state with `text` as one more hunk at the end of a file section.
pub open spec fn hunk_appended(s: UiStateView, file: int, text: Seq<char>) -> UiStateView {
    UiStateView {
        files: s.files.update(
            file,
            FileSectionView { hunks: s.files[file].hunks.push(text), ..s.files[file] },
        ),
        ..s
    }
}

/// The state with the viewed hunk taken out of its file section: slots
/// beyond the hunks that are left are dropped, and the last hunk is viewed
/// where the viewed one was beyond it.
pub open spec fn hunk_removed(s: UiStateView, active: int) -> UiStateView {
    let (file, hunk) = flat_hunks(s.files)[active];
    let left = s.hunk_count() - 1;
    UiStateView {
        files: s.files.update(
            file,
            FileSectionView { hunks: s.files[file].hunks.remove(hunk), ..s.files[file] },
        ),
        hunk_commits: if s.hunk_commits.len() > left {
            s.hunk_commits.take(left)
        } else {
            s.hunk_commits
        },
        active_mode: UiModeView::Viewing {
            active_hunk: if active < left {
                active as usize
            } else if left > 0 {
                (left - 1) as usize
            } else {
                0
            },
        },
        ..s
    }
}

/// A key while the hunks are browsed. Left and right move among the hunks.
/// A digit assigns the viewed hunk to its commit or, where the commit has no
/// message yet, begins the typing of one. Backspace waits for the commit
/// whose message is to be revised. Ctrl-f toggles whether a part of the hunks
/// is enough, Ctrl-l asks for a redraw, Ctrl-e for the editor and `p` for the
/// pager on the viewed hunk. Ctrl-s ends the session where it is to be
/// saved, `q` ends it unsaved. Any other key changes nothing.
pub open spec fn viewing_key(s: UiStateView, active: usize, gen: u64, key: Key) -> (
    UiStateView,
    Action,
) {
    match key {
        Key::Ctrl(c) => if c == 'f' {
            (UiStateView { allow_partial: !s.allow_partial, ..s }, Action::ReadKey)
        } else if c == 'l' {
            (UiStateView { force_redraw_gen: gen, ..s }, Action::ReadKey)
        } else if c == 'e' && active < s.hunk_count() {
            (s, Action::EditHunk { hunk: active })
        } else if c == 's' && s.should_save() {
            (s, Action::Finish)
        } else {
            (s, Action::ReadKey)
        },
        Key::Char(c) => if c == 'p' && active < s.hunk_count() {
            (s, Action::Page { hunk: active })
        } else if c == 'q' {
            (UiStateView { dont_save: true, ..s }, Action::Finish)
        } else if is_commit_id(c) {
            if s.messages.dom().contains(c) {
                (assigned(s, active as int, c), Action::ReadKey)
            } else {
                (
                    pushed(
                        s,
                        UiModeView::Editing {
                            commit: c,
                            message: Seq::empty(),
                            assign_to_hunk: Some(active),
                        },
                    ),
                    Action::ReadKey,
                )
            }
        } else {
            (s, Action::ReadKey)
        },
        Key::Backspace => (pushed(s, UiModeView::WaitingToEdit), Action::ReadKey),
        Key::Left => (
            UiStateView {
                active_mode: UiModeView::Viewing {
                    active_hunk: if active == 0 {
                        0
                    } else {
                        (active - 1) as usize
                    },
                },
                ..s
            },
            Action::ReadKey,
        ),
        Key::Right => if active + 1 < s.hunk_count() {
            (
                UiStateView {
                    active_mode: UiModeView::Viewing { active_hunk: (active + 1) as usize },
                    ..s
                },
                Action::ReadKey,
            )
        } else {
            (s, Action::ReadKey)
        },
        _ => (s, Action::ReadKey),
    }
}

/// A key while a commit message is typed. A character is put at the end of
/// the message, Backspace takes the last one away, Escape gives the message
/// up. Ctrl-s, where something is typed and the commit is a commit id,
/// resumes the suspended mode, gives the commit the message and assigns the
/// hunk that waits for it. Any other key changes nothing.
pub open spec fn editing_key(
    s: UiStateView,
    commit: CommitId,
    message: Seq<char>,
    assign_to_hunk: Option<usize>,
    key: Key,
) -> (UiStateView, Action) {
    match key {
        Key::Char(c) => (
            UiStateView {
                active_mode: UiModeView::Editing { commit, message: message.push(c), assign_to_hunk },
                ..s
            },
            Action::ReadKey,
        ),
        Key::Backspace => (
            UiStateView {
                active_mode: UiModeView::Editing {
                    commit,
                    message: if message.len() > 0 {
                        message.drop_last()
                    } else {
                        message
                    },
                    assign_to_hunk,
                },
                ..s
            },
            Action::ReadKey,
        ),
        Key::Esc => (popped(s), Action::ReadKey),
        Key::Ctrl(c) => if c == 's' && message.len() > 0 && is_commit_id(commit) {
            let resumed = popped(s);
            let named = UiStateView { messages: resumed.messages.insert(commit, message), ..resumed };
            match assign_to_hunk {
                Some(hunk) => (assigned(named, hunk as int, commit), Action::ReadKey),
                None => (named, Action::ReadKey),
            }
        } else {
            (s, Action::ReadKey)
        },
        _ => (s, Action::ReadKey),
    }
}

/// A key that is waited for to name the commit whose message is revised.
/// Whatever the key, the wait is over; a digit sends the editor to the
/// message of its commit.
pub open spec fn waiting_key(s: UiStateView, key: Key) -> (UiStateView, Action) {
    match key {
        Key::Char(c) => if is_commit_id(c) {
            (popped(s), Action::EditMessage { commit: c })
        } else {
            (popped(s), Action::ReadKey)
        },
        _ => (popped(s), Action::ReadKey),
    }
}

/// What the editor made of the viewed hunk. A text that is not blank
/// becomes one more hunk at the end of the hunk's file, and the editor is
/// called on the hunk again. A blank text ends this: the hunk is taken out.
/// Where the editor failed nothing changes, and neither does it where no
/// hunk is viewed or the hunks could not be counted with one more.
pub open spec fn hunk_edited(s: UiStateView, text: Option<Seq<char>>) -> (UiStateView, Action) {
    match (s.active_mode, text) {
        (UiModeView::Viewing { active_hunk }, Some(t)) => if active_hunk >= s.hunk_count() {
            (s, Action::ReadKey)
        } else if blank(t) {
            (hunk_removed(s, active_hunk as int), Action::ReadKey)
        } else if s.hunk_count() < usize::MAX {
            (
                hunk_appended(s, flat_hunks(s.files)[active_hunk as int].0, t),
                Action::EditHunk { hunk: active_hunk },
            )
        } else {
            (s, Action::ReadKey)
        },
        _ => (s, Action::ReadKey),
    }
}

/// One step of the session: the state after the event, and what is to
/// happen next. `gen` numbers the rounds of the key loop. When the keys have
/// come to an end the session ends unsaved.
pub open spec fn step_spec(s: UiStateView, gen: u64, event: EventView) -> (UiStateView, Action) {
    match event {
        EventView::Key(key) => match s.active_mode {
            UiModeView::Viewing { active_hunk } => viewing_key(s, active_hunk, gen, key),
            UiModeView::Editing { commit, message, assign_to_hunk } => editing_key(
                s,
                commit,
                message,
                assign_to_hunk,
                key,
            ),
            UiModeView::WaitingToEdit => waiting_key(s, key),
        },
        EventView::EndOfKeys => (UiStateView { dont_save: true, ..s }, Action::Finish),
        EventView::HunkEdited(text) => hunk_edited(s, text),
        EventView::MessageEdited(commit, text) => match text {
            Some(t) => if is_commit_id(commit) {
                (UiStateView { messages: s.messages.insert(commit, t), ..s }, Action::ReadKey)
            } else {
                (s, Action::ReadKey)
            },
            None => (s, Action::ReadKey),
        },
        EventView::Paged(ran) => if ran {
            (UiStateView { force_redraw_gen: gen, ..s }, Action::ReadKey)
        } else {
            (s, Action::ReadKey)
        },
    }
}

/// Replacing a file section changes the number of hunks by the difference
/// of the section's own.
pub proof fn lemma_hunk_total_update(files: Seq<FileSectionView>, f: int, x: FileSectionView)
    requires
        0 <= f < files.len(),
    ensures
        hunk_total(files.update(f, x)) == hunk_total(files) - files[f].hunks.len() + x.hunks.len(),
    decreases files.len(),
{
    if f == files.len() - 1 {
        assert(files.update(f, x).drop_last() =~= files.drop_last());
    } else {
        assert(files.update(f, x).drop_last() =~= files.drop_last().update(f, x));
        lemma_hunk_total_update(files.drop_last(), f, x);
    }
}

impl UiState {
    fn key_while_viewing(&mut self, active: usize, gen: u64, key: Key) -> (action: Action)
        requires
            old(self)@.wf(),
            old(self)@.active_mode == (UiModeView::Viewing { active_hunk: active }),
        ensures
            (final(self)@, action) == viewing_key(old(self)@, active, gen, key),
            final(self)@.wf(),
    {
        match key {
            Key::Ctrl(c) => {
                if c == 'f' {
                    self.allow_partial = !self.allow_partial;
                    Action::ReadKey
                } else if c == 'l' {
                    self.force_redraw_gen = gen;
                    Action::ReadKey
                } else if c == 'e' && active < self.hunk_count() {
                    Action::EditHunk { hunk: active }
                } else if c == 's' && self.should_save_commits() {
                    Action::Finish
                } else {
                    Action::ReadKey
                }
            },
            Key::Char(c) => {
                if c == 'p' && active < self.hunk_count() {
                    Action::Page { hunk: active }
                } else if c == 'q' {
                    self.dont_save = true;
                    Action::Finish
                } else if '0' <= c && c <= '9' {
                    if self.messages.contains_key(c) {
                        self.set_hunk_commit(active, c);
                    } else {
                        self.push_mode(
                            UiMode::Editing {
                                commit: c,
                                message: Vec::new(),
                                assign_to_hunk: Some(active),
                            },
                        );
                    }
                    Action::ReadKey
                } else {
                    Action::ReadKey
                }
            },
            Key::Backspace => {
                self.push_mode(UiMode::WaitingToEdit);
                Action::ReadKey
            },
            Key::Left => {
                self.active_mode = UiMode::Viewing {
                    active_hunk: if active == 0 {
                        0
                    } else {
                        active - 1
                    },
                };
                Action::ReadKey
            },
            Key::Right => {
                if active < usize::MAX && active + 1 < self.hunk_count() {
                    self.active_mode = UiMode::Viewing { active_hunk: active + 1 };
                }
                Action::ReadKey
            },
            _ => Action::ReadKey,
        }
    }

    fn key_while_editing(&mut self, key: Key) -> (action: Action)
        requires
            old(self)@.wf(),
            old(self)@.active_mode is Editing,
        ensures
            (final(self)@, action) == editing_key(
                old(self)@,
                old(self)@.active_mode->Editing_commit,
                old(self)@.active_mode->Editing_message,
                old(self)@.active_mode->Editing_assign_to_hunk,
                key,
            ),
            final(self)@.wf(),
    {
        match key {
            Key::Char(c) => {
                match &mut self.active_mode {
                    UiMode::Editing { message, .. } => {
                        message.push(c);
                    },
                    _ => {},
                }
            },
            Key::Backspace => {
                match &mut self.active_mode {
                    UiMode::Editing { message, .. } => {
                        let ghost before = message@;
                        message.pop();
                        assert(before.len() > 0 ==> message@ =~= before.drop_last());
                    },
                    _ => {},
                }
            },
            Key::Esc => {
                self.pop_mode();
            },
            Key::Ctrl(c) => {
                if c == 's' {
                    let typed = match &self.active_mode {
                        UiMode::Editing { commit, message, assign_to_hunk } => {
                            if message.len() > 0 && '0' <= *commit && *commit <= '9' {
                                Some((*commit, string_of(message), *assign_to_hunk))
                            } else {
                                None
                            }
                        },
                        _ => None,
                    };
                    match typed {
                        Some((commit, message, assign_to_hunk)) => {
                            self.pop_mode();
                            self.messages.insert(commit, CommitInfo { message });
                            match assign_to_hunk {
                                Some(hunk) => {
                                    self.set_hunk_commit(hunk, commit);
                                },
                                None => {},
                            }
                        },
                        None => {},
                    }
                }
            },
            _ => {},
        }
        Action::ReadKey
    }

    fn key_while_waiting(&mut self, key: Key) -> (action: Action)
        requires
            old(self)@.wf(),
        ensures
            (final(self)@, action) == waiting_key(old(self)@, key),
            final(self)@.wf(),
    {
        self.pop_mode();
        match key {
            Key::Char(c) => {
                if '0' <= c && c <= '9' {
                    Action::EditMessage { commit: c }
                } else {
                    Action::ReadKey
                }
            },
            _ => Action::ReadKey,
        }
    }

    fn after_hunk_edit(&mut self, text: Option<String>) -> (action: Action)
        requires
            old(self)@.wf(),
        ensures
            (final(self)@, action) == hunk_edited(
                old(self)@,
                match text {
                    Some(t) => Some(t@),
                    None => None,
                },
            ),
            final(self)@.wf(),
    {
        let active = match &self.active_mode {
            UiMode::Viewing { active_hunk } => *active_hunk,
            _ => {
                return Action::ReadKey;
            },
        };
        let body = match text {
            Some(body) => body,
            None => {
                return Action::ReadKey;
            },
        };
        let count = self.hunk_count();
        let place = match self.get_hunk(active) {
            Some(place) => place,
            None => {
                return Action::ReadKey;
            },
        };
        let ghost files = self@.files;
        proof {
            lemma_flat_hunks_len(files);
            lemma_flat_hunks_in_files(files, active as int);
        }
        if is_blank(body.as_str()) {
            let left = count - 1;
            self.files[place.file].hunks.remove(place.hunk);
            self.hunk_commits.truncate(left);
            self.active_mode = UiMode::Viewing {
                active_hunk: if active < left {
                    active
                } else if left > 0 {
                    left - 1
                } else {
                    0
                },
            };
            proof {
                let shorter = FileSectionView {
                    hunks: files[place.file as int].hunks.remove(place.hunk as int),
                    ..files[place.file as int]
                };
                assert(self.files[place.file as int].hunks.deep_view() =~= shorter.hunks);
                assert(self@.files =~= files.update(place.file as int, shorter));
                lemma_hunk_total_update(files, place.file as int, shorter);
                assert(self@.hunk_commits =~= hunk_removed(old(self)@, active as int).hunk_commits);
            }
            Action::ReadKey
        } else if count < usize::MAX {
            self.files[place.file].hunks.push(Hunk { body });
            proof {
                let longer = FileSectionView {
                    hunks: files[place.file as int].hunks.push(body@),
                    ..files[place.file as int]
                };
                assert(self.files[place.file as int].hunks.deep_view() =~= longer.hunks);
                assert(self@.files =~= files.update(place.file as int, longer));
                lemma_hunk_total_update(files, place.file as int, longer);
            }
            Action::EditHunk { hunk: active }
        } else {
            Action::ReadKey
        }
    }

    /// Takes one event, and says what is to happen next.
    pub fn step(&mut self, gen: u64, event: Event) -> (action: Action)
        requires
            old(self)@.wf(),
        ensures
            (final(self)@, action) == step_spec(old(self)@, gen, event@),
            final(self)@.wf(),
    {
        match event {
            Event::Key(key) => {
                let viewed = match &self.active_mode {
                    UiMode::Viewing { active_hunk } => Some(*active_hunk),
                    _ => None,
                };
                let editing = match &self.active_mode {
                    UiMode::Editing { .. } => true,
                    _ => false,
                };
                match viewed {
                    Some(active) => self.key_while_viewing(active, gen, key),
                    None => if editing {
                        self.key_while_editing(key)
                    } else {
                        self.key_while_waiting(key)
                    },
                }
            },
            Event::EndOfKeys => {
                self.dont_save = true;
                Action::Finish
            },
            Event::HunkEdited(text) => self.after_hunk_edit(text),
            Event::MessageEdited(commit, text) => {
                match text {
                    Some(message) => {
                        self.messages.insert(commit, CommitInfo { message });
                    },
                    None => {},
                }
                Action::ReadKey
            },
            Event::Paged(ran) => {
                if ran {
                    self.force_redraw_gen = gen;
                }
                Action::ReadKey
            },
        }
    }
}

} // verus!
