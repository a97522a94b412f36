use git_split::segment::{FileSection, Hunk};
use git_split::state::{CommitInfo, CommitTable, HunkRef, UiMode, UiState};

fn section(header: &str, hunks: &[&str]) -> FileSection {
    FileSection {
        header: header.to_string(),
        hunks: hunks.iter().map(|h| Hunk { body: h.to_string() }).collect(),
    }
}

fn two_files() -> Vec<FileSection> {
    vec![section("diff a", &["@@ -1 +1 @@\n+h0", "@@ -5 +5 @@\n+h1"]), section("diff b", &["@@ -2 +2 @@\n-h2"])]
}

fn session() -> UiState {
    UiState::new(two_files(), "whole message\n\nbody".to_string()).unwrap()
}

#[test]
fn a_session_begins_with_every_hunk_on_the_commit_that_is_split() {
    let state = session();
    assert_eq!(state.hunk_commits, vec![Some('0'), Some('0'), Some('0')]);
    assert_eq!(state.messages.ids(), vec!['0']);
    assert_eq!(state.messages.get('0').unwrap().message, "whole message\n\nbody");
    assert_eq!(state.active_mode, UiMode::Viewing { active_hunk: 0 });
    assert!(state.previous_modes.is_empty());
    assert!(!state.dont_save);
    assert!(!state.allow_partial);
    assert_eq!(state.force_redraw_gen, 0);
    assert_eq!(state.force_redraw_terminal_size, (0, 0));
    assert_eq!(state.files, two_files());
}

#[test]
fn hunks_are_counted_over_all_files() {
    assert_eq!(session().hunk_count(), 3);
    assert_eq!(UiState::new(Vec::new(), String::new()).unwrap().hunk_count(), 0);
    assert_eq!(UiState::new(vec![section("diff a", &[])], String::new()).unwrap().hunk_count(), 0);
}

#[test]
fn hunks_are_found_by_their_flattened_index() {
    let state = session();
    assert_eq!(
        state.hunks(),
        vec![
            HunkRef { file: 0, hunk: 0 },
            HunkRef { file: 0, hunk: 1 },
            HunkRef { file: 1, hunk: 0 }
        ]
    );
    assert_eq!(state.get_hunk(0), Some(HunkRef { file: 0, hunk: 0 }));
    assert_eq!(state.get_hunk(1), Some(HunkRef { file: 0, hunk: 1 }));
    assert_eq!(state.get_hunk(2), Some(HunkRef { file: 1, hunk: 0 }));
    assert_eq!(state.get_hunk(3), None);
    assert_eq!(state.hunk_text(2), Some("@@ -2 +2 @@\n-h2".to_string()));
    assert_eq!(state.hunk_text(3), None);
}

#[test]
fn files_without_hunks_are_passed_over() {
    let state = UiState::new(
        vec![section("diff a", &[]), section("diff b", &["h0"]), section("diff c", &[]), section("diff d", &["h1"])],
        String::new(),
    )
    .unwrap();
    assert_eq!(state.hunks(), vec![HunkRef { file: 1, hunk: 0 }, HunkRef { file: 3, hunk: 0 }]);
}

#[test]
fn all_hunks_are_assigned_when_every_slot_is_there_and_set() {
    let mut state = session();
    assert!(state.all_hunks_assigned());
    state.hunk_commits[1] = None;
    assert!(!state.all_hunks_assigned());
    state.hunk_commits[1] = Some('0');
    assert!(state.all_hunks_assigned());
    state.hunk_commits.truncate(2);
    assert!(!state.all_hunks_assigned());
    state.hunk_commits.truncate(0);
    assert!(!state.all_hunks_assigned());
}

#[test]
fn a_session_without_hunks_has_all_of_them_assigned() {
    assert!(UiState::new(Vec::new(), String::new()).unwrap().all_hunks_assigned());
}

#[test]
fn saving_needs_all_hunks_unless_a_part_is_enough() {
    for dont_save in [false, true] {
        for allow_partial in [false, true] {
            for all_assigned in [false, true] {
                let mut state = session();
                state.dont_save = dont_save;
                state.allow_partial = allow_partial;
                if !all_assigned {
                    state.hunk_commits[2] = None;
                }
                assert_eq!(state.all_hunks_assigned(), all_assigned);
                assert_eq!(
                    state.should_save_commits(),
                    !dont_save && (allow_partial || all_assigned)
                );
            }
        }
    }
}

#[test]
fn a_hunk_is_assigned_to_a_commit_that_has_a_message() {
    let mut state = session();
    state.messages.insert('4', CommitInfo { message: "four".to_string() });
    assert!(state.set_hunk_commit(1, '4'));
    assert_eq!(state.hunk_commits, vec![Some('0'), Some('4'), Some('0')]);
}

#[test]
fn a_hunk_is_not_assigned_to_a_commit_without_a_message() {
    let mut state = session();
    assert!(!state.set_hunk_commit(1, '4'));
    assert!(!state.set_hunk_commit(1, 'x'));
    assert_eq!(state.hunk_commits, vec![Some('0'), Some('0'), Some('0')]);
}

#[test]
fn a_hunk_that_does_not_exist_is_not_assigned() {
    let mut state = session();
    assert!(!state.set_hunk_commit(3, '0'));
    assert!(!state.set_hunk_commit(usize::MAX, '0'));
    assert_eq!(state.hunk_commits, vec![Some('0'), Some('0'), Some('0')]);
}

#[test]
fn slots_that_are_missing_come_into_being_unset() {
    let mut state = session();
    state.hunk_commits.truncate(0);
    assert!(state.set_hunk_commit(2, '0'));
    assert_eq!(state.hunk_commits, vec![None, None, Some('0')]);
    assert!(state.set_hunk_commit(0, '0'));
    assert_eq!(state.hunk_commits, vec![Some('0'), None, Some('0')]);
}

#[test]
fn modes_are_suspended_and_resumed_last_in_first_out() {
    let mut state = session();
    state.push_mode(UiMode::WaitingToEdit);
    state.push_mode(UiMode::Viewing { active_hunk: 2 });
    assert_eq!(state.active_mode, UiMode::Viewing { active_hunk: 2 });
    assert_eq!(
        state.previous_modes,
        vec![UiMode::Viewing { active_hunk: 0 }, UiMode::WaitingToEdit]
    );
    assert_eq!(state.pop_mode(), UiMode::Viewing { active_hunk: 2 });
    assert_eq!(state.active_mode, UiMode::WaitingToEdit);
    assert_eq!(state.pop_mode(), UiMode::WaitingToEdit);
    assert_eq!(state.active_mode, UiMode::Viewing { active_hunk: 0 });
    assert!(state.previous_modes.is_empty());
}

#[test]
fn popping_with_nothing_suspended_changes_nothing() {
    let mut state = session();
    state.set_mode(UiMode::Viewing { active_hunk: 2 });
    assert_eq!(state.pop_mode(), UiMode::Viewing { active_hunk: 0 });
    assert_eq!(state.active_mode, UiMode::Viewing { active_hunk: 2 });
    assert!(state.previous_modes.is_empty());
}

#[test]
fn set_mode_hands_out_the_mode_that_was_active() {
    let mut state = session();
    assert_eq!(state.set_mode(UiMode::WaitingToEdit), UiMode::Viewing { active_hunk: 0 });
    assert_eq!(state.active_mode, UiMode::WaitingToEdit);
    assert!(state.previous_modes.is_empty());
}

#[test]
fn the_default_mode_views_the_first_hunk() {
    assert_eq!(UiMode::default(), UiMode::Viewing { active_hunk: 0 });
}

#[test]
fn the_table_holds_messages_by_commit_id() {
    let mut table = CommitTable::new();
    assert_eq!(table.len(), 0);
    assert!(!table.contains_key('3'));
    assert!(table.get('3').is_none());
    assert!(table.insert('3', CommitInfo { message: "three".to_string() }));
    assert!(table.insert('1', CommitInfo { message: "one".to_string() }));
    assert!(table.insert('9', CommitInfo { message: "nine".to_string() }));
    assert!(table.insert('3', CommitInfo { message: "drei".to_string() }));
    assert_eq!(table.len(), 3);
    assert_eq!(table.ids(), vec!['1', '3', '9']);
    assert_eq!(table.get('3').unwrap().message, "drei");
    assert!(table.contains_key('9'));
    assert!(!table.contains_key('0'));
}

#[test]
fn the_table_takes_commit_ids_only() {
    let mut table = CommitTable::new();
    assert!(!table.insert('a', CommitInfo { message: "a".to_string() }));
    assert!(!table.insert('/', CommitInfo { message: "a".to_string() }));
    assert!(!table.insert(':', CommitInfo { message: "a".to_string() }));
    assert_eq!(table.len(), 0);
    assert!(table.get('a').is_none());
    assert!(table.insert('0', CommitInfo { message: "zero".to_string() }));
    assert_eq!(table.ids(), vec!['0']);
}

#[test]
fn the_editor_is_given_the_message_of_the_commit() {
    let state = session();
    assert_eq!(state.message_text('0'), "whole message\n\nbody");
    assert_eq!(state.message_text('5'), "");
}
