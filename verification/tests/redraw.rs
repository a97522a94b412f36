use git_split::hash::meow_hash;
use git_split::redraw::RedrawScheduler;
use git_split::segment::{FileSection, Hunk};
use git_split::state::{CommitInfo, UiMode, UiState};
use git_split::step::{Event, Key};

fn section(header: &str, hunks: &[&str]) -> FileSection {
    FileSection {
        header: header.to_string(),
        hunks: hunks.iter().map(|h| Hunk { body: h.to_string() }).collect(),
    }
}

fn session() -> UiState {
    UiState::new(
        vec![section("diff a", &["h0", "h1"]), section("diff b", &["h2"])],
        "whole".to_string(),
    )
    .unwrap()
}

const SAMPLES: [&[u8]; 3] = [b"", b"a", b"some bytes that are longer than a block of sixteen"];

#[test]
fn the_hash_is_that_of_the_hasher_under_its_default_seed() {
    for bytes in SAMPLES {
        assert_eq!(meow_hash(None, bytes), meowhash::MeowHasher::hash(bytes).as_u128());
    }
    assert_ne!(meow_hash(None, b"a"), meow_hash(None, b"b"));
    assert_ne!(meow_hash(None, b""), 0);
}

#[test]
fn no_seed_is_the_default_seed() {
    let default = meowhash::MeowHash::default_seed().into_bytes();
    assert_eq!(default[0], 0x32);
    assert_eq!(default[127], 0xe6);
    for bytes in SAMPLES {
        assert_eq!(meow_hash(Some(default), bytes), meow_hash(None, bytes));
    }
}

#[test]
fn the_hash_is_that_of_the_hasher_under_the_given_seed() {
    let mut seed = [0u8; 128];
    for (i, byte) in seed.iter_mut().enumerate() {
        *byte = (i * 7 + 3) as u8;
    }
    for bytes in SAMPLES {
        assert_eq!(
            meow_hash(Some(seed), bytes),
            meowhash::MeowHasher::hash_with_seed(meowhash::MeowHash::from_bytes(seed), bytes)
                .as_u128()
        );
        assert_eq!(meow_hash(Some(seed), bytes), meow_hash(Some(seed), &bytes.to_vec()));
        assert_ne!(meow_hash(Some(seed), bytes), meow_hash(None, bytes));
    }
}

#[test]
fn the_first_state_is_drawn() {
    let mut scheduler = RedrawScheduler::new();
    assert_eq!(scheduler.previous, 0);
    let state = session();
    assert!(scheduler.should_redraw(&state));
    assert_eq!(scheduler.previous, state.fingerprint());
}

#[test]
fn a_state_that_stays_the_same_is_drawn_once() {
    let mut scheduler = RedrawScheduler::new();
    let mut state = session();
    assert!(scheduler.should_redraw(&state));
    assert!(!scheduler.should_redraw(&state));
    assert!(!scheduler.should_redraw(&state));
    state.step(1, Event::Key(Key::Left));
    assert!(!scheduler.should_redraw(&state));
    state.step(2, Event::Key(Key::Other));
    assert!(!scheduler.should_redraw(&state));
}

#[test]
fn a_state_that_changes_is_drawn_again() {
    let mut scheduler = RedrawScheduler::new();
    let mut state = session();
    assert!(scheduler.should_redraw(&state));
    state.step(1, Event::Key(Key::Right));
    assert!(scheduler.should_redraw(&state));
    assert!(!scheduler.should_redraw(&state));
    state.step(2, Event::Key(Key::Ctrl('l')));
    assert!(scheduler.should_redraw(&state));
    state.force_redraw_terminal_size = (80, 24);
    assert!(scheduler.should_redraw(&state));
    state.step(3, Event::Key(Key::Left));
    assert!(scheduler.should_redraw(&state));
    assert!(!scheduler.should_redraw(&state));
}

#[test]
fn the_fingerprint_tells_every_field() {
    let base = session();
    let mut changed: Vec<UiState> = Vec::new();
    for _ in 0..13 {
        changed.push(session());
    }
    changed[0].dont_save = true;
    changed[1].files[0].header.push('x');
    changed[2].files[1].hunks[0].body.push('x');
    changed[3].force_redraw_gen = 1;
    changed[4].force_redraw_terminal_size = (1, 0);
    changed[5].force_redraw_terminal_size = (0, 1);
    changed[6].allow_partial = true;
    changed[7].active_mode = UiMode::Viewing { active_hunk: 1 };
    changed[8].previous_modes.push(UiMode::WaitingToEdit);
    changed[9].messages.insert('0', CommitInfo { message: "other".to_string() });
    changed[10].messages.insert('1', CommitInfo { message: "whole".to_string() });
    changed[11].hunk_commits[2] = None;
    changed[12].files[0].hunks.push(Hunk { body: String::new() });
    let mut prints: Vec<u128> = changed.iter().map(|s| s.fingerprint()).collect();
    prints.push(base.fingerprint());
    let count = prints.len();
    prints.sort();
    prints.dedup();
    assert_eq!(prints.len(), count);
    assert_eq!(base.fingerprint(), session().fingerprint());
}

#[test]
fn texts_are_told_apart_from_their_neighbours() {
    let one = UiState::new(vec![section("ab", &["c"])], String::new()).unwrap();
    let other = UiState::new(vec![section("a", &["bc"])], String::new()).unwrap();
    assert_ne!(one.encode(), other.encode());
    assert_ne!(one.fingerprint(), other.fingerprint());
}

#[test]
fn the_bytes_of_a_state_give_every_field_in_turn() {
    let mut state = UiState::new(vec![section("d", &["h"])], "m".to_string()).unwrap();
    state.force_redraw_gen = 0x0102;
    state.force_redraw_terminal_size = (80, 24);
    state.allow_partial = true;
    let mut expected: Vec<u8> = Vec::new();
    expected.push(0);
    expected.extend(1u64.to_le_bytes());
    expected.extend(1u64.to_le_bytes());
    expected.extend(('d' as u32).to_le_bytes());
    expected.extend(1u64.to_le_bytes());
    expected.extend(1u64.to_le_bytes());
    expected.extend(('h' as u32).to_le_bytes());
    expected.extend(0x0102u64.to_le_bytes());
    expected.extend(80u16.to_le_bytes());
    expected.extend(24u16.to_le_bytes());
    expected.push(1);
    expected.push(1);
    expected.extend(0u64.to_le_bytes());
    expected.extend(0u64.to_le_bytes());
    expected.push(1);
    expected.extend(1u64.to_le_bytes());
    expected.extend(('m' as u32).to_le_bytes());
    expected.extend([0u8; 9]);
    expected.extend(1u64.to_le_bytes());
    expected.push(1);
    expected.extend(('0' as u32).to_le_bytes());
    assert_eq!(state.encode(), expected);
}

#[test]
fn the_bytes_of_a_mode_tell_what_is_typed() {
    let mut state = UiState::new(Vec::new(), String::new()).unwrap();
    state.active_mode =
        UiMode::Editing { commit: '3', message: vec!['é'], assign_to_hunk: Some(2) };
    state.previous_modes = vec![UiMode::WaitingToEdit, UiMode::Viewing { active_hunk: 7 }];
    let mut expected: Vec<u8> = Vec::new();
    expected.push(0);
    expected.extend(0u64.to_le_bytes());
    expected.extend(0u64.to_le_bytes());
    expected.extend(0u16.to_le_bytes());
    expected.extend(0u16.to_le_bytes());
    expected.push(0);
    expected.push(0);
    expected.extend(('3' as u32).to_le_bytes());
    expected.extend(1u64.to_le_bytes());
    expected.extend(('é' as u32).to_le_bytes());
    expected.push(1);
    expected.extend(2u64.to_le_bytes());
    expected.extend(2u64.to_le_bytes());
    expected.push(2);
    expected.push(1);
    expected.extend(7u64.to_le_bytes());
    expected.push(1);
    expected.extend(0u64.to_le_bytes());
    expected.extend([0u8; 9]);
    expected.extend(0u64.to_le_bytes());
    assert_eq!(state.encode(), expected);
}
