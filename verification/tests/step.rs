use git_split::segment::{FileSection, Hunk};
use git_split::state::{UiMode, UiState};
use git_split::step::{Action, Event, Key};

fn section(header: &str, hunks: &[&str]) -> FileSection {
    FileSection {
        header: header.to_string(),
        hunks: hunks.iter().map(|h| Hunk { body: h.to_string() }).collect(),
    }
}

fn session() -> UiState {
    UiState::new(
        vec![section("diff a", &["h0", "h1"]), section("diff b", &["h2"])],
        "whole".to_string(),
    )
    .unwrap()
}

fn press(state: &mut UiState, key: Key) -> Action {
    state.step(1, Event::Key(key))
}

fn type_text(state: &mut UiState, text: &str) {
    for c in text.chars() {
        assert_eq!(press(state, Key::Char(c)), Action::ReadKey);
    }
}

fn bodies(state: &UiState, file: usize) -> Vec<String> {
    state.files[file].hunks.iter().map(|h| h.body.clone()).collect()
}

#[test]
fn right_and_left_move_within_the_hunks() {
    let mut state = session();
    assert_eq!(press(&mut state, Key::Left), Action::ReadKey);
    assert_eq!(state.active_mode, UiMode::Viewing { active_hunk: 0 });
    press(&mut state, Key::Right);
    assert_eq!(state.active_mode, UiMode::Viewing { active_hunk: 1 });
    press(&mut state, Key::Right);
    assert_eq!(state.active_mode, UiMode::Viewing { active_hunk: 2 });
    press(&mut state, Key::Right);
    assert_eq!(state.active_mode, UiMode::Viewing { active_hunk: 2 });
    press(&mut state, Key::Left);
    assert_eq!(state.active_mode, UiMode::Viewing { active_hunk: 1 });
}

#[test]
fn the_key_of_a_new_commit_begins_its_message() {
    let mut state = session();
    press(&mut state, Key::Right);
    assert_eq!(press(&mut state, Key::Char('1')), Action::ReadKey);
    assert_eq!(
        state.active_mode,
        UiMode::Editing { commit: '1', message: Vec::new(), assign_to_hunk: Some(1) }
    );
    assert_eq!(state.previous_modes, vec![UiMode::Viewing { active_hunk: 1 }]);
    assert_eq!(state.hunk_commits, vec![Some('0'), Some('0'), Some('0')]);
}

#[test]
fn a_confirmed_message_names_the_commit_and_assigns_the_hunk() {
    let mut state = session();
    press(&mut state, Key::Right);
    press(&mut state, Key::Char('1'));
    type_text(&mut state, "fix Ax");
    press(&mut state, Key::Backspace);
    assert_eq!(press(&mut state, Key::Ctrl('s')), Action::ReadKey);
    assert_eq!(state.active_mode, UiMode::Viewing { active_hunk: 1 });
    assert!(state.previous_modes.is_empty());
    assert_eq!(state.messages.get('1').unwrap().message, "fix A");
    assert_eq!(state.hunk_commits, vec![Some('0'), Some('1'), Some('0')]);
}

#[test]
fn the_key_of_a_known_commit_assigns_the_hunk_at_once() {
    let mut state = session();
    press(&mut state, Key::Right);
    press(&mut state, Key::Right);
    assert_eq!(press(&mut state, Key::Char('0')), Action::ReadKey);
    assert_eq!(state.active_mode, UiMode::Viewing { active_hunk: 2 });
    state.hunk_commits[2] = None;
    press(&mut state, Key::Char('0'));
    assert_eq!(state.hunk_commits, vec![Some('0'), Some('0'), Some('0')]);
}

#[test]
fn escape_gives_up_the_message_and_the_assignment() {
    let mut state = session();
    press(&mut state, Key::Right);
    let before = (state.hunk_commits.clone(), state.messages.clone(), state.active_mode.clone());
    press(&mut state, Key::Char('1'));
    type_text(&mut state, "never mind");
    press(&mut state, Key::Backspace);
    assert_eq!(press(&mut state, Key::Esc), Action::ReadKey);
    assert_eq!((state.hunk_commits.clone(), state.messages.clone(), state.active_mode.clone()), before);
    assert!(state.previous_modes.is_empty());
    assert!(!state.messages.contains_key('1'));
}

#[test]
fn an_empty_message_is_not_confirmed() {
    let mut state = session();
    press(&mut state, Key::Char('1'));
    assert_eq!(press(&mut state, Key::Ctrl('s')), Action::ReadKey);
    assert_eq!(
        state.active_mode,
        UiMode::Editing { commit: '1', message: Vec::new(), assign_to_hunk: Some(0) }
    );
    press(&mut state, Key::Backspace);
    assert_eq!(
        state.active_mode,
        UiMode::Editing { commit: '1', message: Vec::new(), assign_to_hunk: Some(0) }
    );
    assert!(!state.messages.contains_key('1'));
}

#[test]
fn typing_takes_every_character() {
    let mut state = session();
    press(&mut state, Key::Char('7'));
    type_text(&mut state, "q p0\n\té");
    press(&mut state, Key::Left);
    press(&mut state, Key::Other);
    press(&mut state, Key::Ctrl('f'));
    assert_eq!(
        state.active_mode,
        UiMode::Editing {
            commit: '7',
            message: "q p0\n\té".chars().collect(),
            assign_to_hunk: Some(0)
        }
    );
    assert!(!state.allow_partial);
    assert!(!state.dont_save);
}

#[test]
fn backspace_waits_for_the_commit_to_revise() {
    let mut state = session();
    press(&mut state, Key::Right);
    assert_eq!(press(&mut state, Key::Backspace), Action::ReadKey);
    assert_eq!(state.active_mode, UiMode::WaitingToEdit);
    assert_eq!(state.previous_modes, vec![UiMode::Viewing { active_hunk: 1 }]);
    assert_eq!(press(&mut state, Key::Char('4')), Action::EditMessage { commit: '4' });
    assert_eq!(state.active_mode, UiMode::Viewing { active_hunk: 1 });
    assert!(state.previous_modes.is_empty());
    assert_eq!(
        state.step(1, Event::MessageEdited('4', Some("four\n".to_string()))),
        Action::ReadKey
    );
    assert_eq!(state.messages.get('4').unwrap().message, "four\n");
    assert_eq!(state.hunk_commits, vec![Some('0'), Some('0'), Some('0')]);
}

#[test]
fn any_other_key_ends_the_wait() {
    for key in [Key::Char('x'), Key::Esc, Key::Backspace, Key::Ctrl('s'), Key::Left, Key::Other] {
        let mut state = session();
        press(&mut state, Key::Backspace);
        assert_eq!(press(&mut state, key), Action::ReadKey);
        assert_eq!(state.active_mode, UiMode::Viewing { active_hunk: 0 });
        assert!(state.previous_modes.is_empty());
    }
}

#[test]
fn a_failed_editor_leaves_the_message() {
    let mut state = session();
    assert_eq!(state.step(1, Event::MessageEdited('0', None)), Action::ReadKey);
    assert_eq!(state.messages.get('0').unwrap().message, "whole");
    assert_eq!(state.step(1, Event::MessageEdited('x', Some("x".to_string()))), Action::ReadKey);
    assert_eq!(state.messages.ids(), vec!['0']);
    assert_eq!(state.step(1, Event::MessageEdited('0', Some("revised".to_string()))), Action::ReadKey);
    assert_eq!(state.messages.get('0').unwrap().message, "revised");
}

#[test]
fn the_partial_key_toggles() {
    let mut state = session();
    assert_eq!(press(&mut state, Key::Ctrl('f')), Action::ReadKey);
    assert!(state.allow_partial);
    press(&mut state, Key::Ctrl('f'));
    assert!(!state.allow_partial);
}

#[test]
fn the_redraw_key_takes_the_number_of_the_round() {
    let mut state = session();
    assert_eq!(state.step(17, Event::Key(Key::Ctrl('l'))), Action::ReadKey);
    assert_eq!(state.force_redraw_gen, 17);
}

#[test]
fn the_pager_is_asked_for_the_viewed_hunk() {
    let mut state = session();
    press(&mut state, Key::Right);
    assert_eq!(press(&mut state, Key::Char('p')), Action::Page { hunk: 1 });
    assert_eq!(state.step(5, Event::Paged(false)), Action::ReadKey);
    assert_eq!(state.force_redraw_gen, 0);
    assert_eq!(state.step(6, Event::Paged(true)), Action::ReadKey);
    assert_eq!(state.force_redraw_gen, 6);
}

#[test]
fn confirm_ends_the_session_when_it_is_to_be_saved() {
    let mut state = session();
    assert_eq!(press(&mut state, Key::Ctrl('s')), Action::Finish);
    assert!(state.should_save_commits());
    let mut state = session();
    state.hunk_commits[1] = None;
    assert_eq!(press(&mut state, Key::Ctrl('s')), Action::ReadKey);
    press(&mut state, Key::Ctrl('f'));
    assert_eq!(press(&mut state, Key::Ctrl('s')), Action::Finish);
    assert!(state.should_save_commits());
}

#[test]
fn quit_ends_the_session_without_saving() {
    let mut state = session();
    assert_eq!(press(&mut state, Key::Char('q')), Action::Finish);
    assert!(state.dont_save);
    assert!(!state.should_save_commits());
}

#[test]
fn the_end_of_the_keys_ends_the_session_without_saving() {
    let mut state = session();
    assert_eq!(state.step(3, Event::EndOfKeys), Action::Finish);
    assert!(state.dont_save);
    assert!(!state.should_save_commits());
    let mut state = session();
    press(&mut state, Key::Char('1'));
    assert_eq!(state.step(3, Event::EndOfKeys), Action::Finish);
    assert!(!state.should_save_commits());
}

#[test]
fn keys_without_a_meaning_change_nothing() {
    let mut state = session();
    for key in [Key::Esc, Key::Other, Key::Char('x'), Key::Ctrl('x'), Key::Char('e'), Key::Ctrl('q')] {
        assert_eq!(press(&mut state, key), Action::ReadKey);
    }
    assert_eq!(state.active_mode, UiMode::Viewing { active_hunk: 0 });
    assert!(state.previous_modes.is_empty());
    assert_eq!(state.hunk_commits, vec![Some('0'), Some('0'), Some('0')]);
    assert!(!state.dont_save);
    assert!(!state.allow_partial);
}

#[test]
fn a_hunk_is_split_by_hand() {
    let mut state = session();
    press(&mut state, Key::Char('1'));
    type_text(&mut state, "first");
    press(&mut state, Key::Ctrl('s'));
    assert_eq!(state.hunk_commits, vec![Some('1'), Some('0'), Some('0')]);
    press(&mut state, Key::Right);
    assert_eq!(press(&mut state, Key::Ctrl('e')), Action::EditHunk { hunk: 1 });
    assert_eq!(state.hunk_text(1), Some("h1".to_string()));
    assert_eq!(
        state.step(1, Event::HunkEdited(Some("h1 upper".to_string()))),
        Action::EditHunk { hunk: 1 }
    );
    assert_eq!(state.hunk_text(1), Some("h1".to_string()));
    assert_eq!(
        state.step(1, Event::HunkEdited(Some("h1 lower".to_string()))),
        Action::EditHunk { hunk: 1 }
    );
    assert_eq!(bodies(&state, 0), vec!["h0", "h1", "h1 upper", "h1 lower"]);
    assert_eq!(state.step(1, Event::HunkEdited(Some(" \n\t".to_string()))), Action::ReadKey);
    assert_eq!(bodies(&state, 0), vec!["h0", "h1 upper", "h1 lower"]);
    assert_eq!(bodies(&state, 1), vec!["h2"]);
    assert_eq!(state.hunk_count(), 4);
    assert_eq!(state.hunk_commits, vec![Some('1'), Some('0'), Some('0')]);
    assert_eq!(state.active_mode, UiMode::Viewing { active_hunk: 1 });
    assert!(!state.all_hunks_assigned());
}

#[test]
fn a_hunk_that_is_edited_to_nothing_is_taken_out() {
    let mut state = session();
    press(&mut state, Key::Right);
    press(&mut state, Key::Right);
    assert_eq!(press(&mut state, Key::Ctrl('e')), Action::EditHunk { hunk: 2 });
    assert_eq!(state.step(1, Event::HunkEdited(Some(String::new()))), Action::ReadKey);
    assert_eq!(bodies(&state, 0), vec!["h0", "h1"]);
    assert!(bodies(&state, 1).is_empty());
    assert_eq!(state.hunk_commits, vec![Some('0'), Some('0')]);
    assert_eq!(state.active_mode, UiMode::Viewing { active_hunk: 1 });
    assert!(state.all_hunks_assigned());
}

#[test]
fn the_last_hunk_can_be_taken_out() {
    let mut state = UiState::new(vec![section("diff a", &["only"])], String::new()).unwrap();
    press(&mut state, Key::Ctrl('e'));
    assert_eq!(state.step(1, Event::HunkEdited(Some("\n".to_string()))), Action::ReadKey);
    assert_eq!(state.hunk_count(), 0);
    assert!(state.hunk_commits.is_empty());
    assert_eq!(state.active_mode, UiMode::Viewing { active_hunk: 0 });
    assert_eq!(press(&mut state, Key::Ctrl('e')), Action::ReadKey);
    assert_eq!(press(&mut state, Key::Char('p')), Action::ReadKey);
    assert_eq!(press(&mut state, Key::Char('0')), Action::ReadKey);
    assert!(state.hunk_commits.is_empty());
    assert_eq!(state.step(1, Event::HunkEdited(Some("x".to_string()))), Action::ReadKey);
    assert_eq!(state.hunk_count(), 0);
}

#[test]
fn a_failed_editor_keeps_what_was_split_off() {
    let mut state = session();
    press(&mut state, Key::Ctrl('e'));
    state.step(1, Event::HunkEdited(Some("part".to_string())));
    assert_eq!(state.step(1, Event::HunkEdited(None)), Action::ReadKey);
    assert_eq!(bodies(&state, 0), vec!["h0", "h1", "part"]);
    assert_eq!(state.hunk_commits, vec![Some('0'), Some('0'), Some('0')]);
    assert_eq!(state.active_mode, UiMode::Viewing { active_hunk: 0 });
}

#[test]
fn an_edited_hunk_is_ignored_while_nothing_is_viewed() {
    let mut state = session();
    press(&mut state, Key::Backspace);
    assert_eq!(state.step(1, Event::HunkEdited(Some("part".to_string()))), Action::ReadKey);
    assert_eq!(bodies(&state, 0), vec!["h0", "h1"]);
    assert_eq!(state.active_mode, UiMode::WaitingToEdit);
}
