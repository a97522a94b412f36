use git_split::render::{render_hunk, Palette};
use git_split::segment::{FileSection, Hunk};
use git_split::state::{CommitInfo, UiState};
use git_split::step::{Event, Key};

fn section(header: &str, hunks: &[&str]) -> FileSection {
    FileSection {
        header: header.to_string(),
        hunks: hunks.iter().map(|h| Hunk { body: h.to_string() }).collect(),
    }
}

fn session() -> UiState {
    let mut state = UiState::new(
        vec![
            section("diff --git a/A b/A\n--- a/A", &["@@ -1 +1 @@\n-a\n+b", "@@ -5 +5 @@\n+c"]),
            section("diff --git a/B b/B", &["@@ -2 +2 @@\n x"]),
        ],
        "whole\nbody".to_string(),
    )
    .unwrap();
    state.force_redraw_terminal_size = (80, 24);
    state
}

const TOP: &str = "\x1b[1;1H\x1b[2J3/3 hunks assigned\r\n\x1b[38;5;9m0: whole\x1b[39m\r\n";

#[test]
fn added_and_removed_lines_are_coloured() {
    assert_eq!(
        render_hunk("@@ -1 +1 @@\n-a\n+b\n c", 10),
        "@@ -1 +1 @@\n\x1b[38;5;1m-a\x1b[39m\n\x1b[38;5;2m+b\x1b[39m\n c\n"
    );
    assert_eq!(render_hunk("+", 1), "\x1b[38;5;2m+\x1b[39m\n");
    assert_eq!(render_hunk("-", 1), "\x1b[38;5;1m-\x1b[39m\n");
    assert_eq!(render_hunk(" +", 1), " +\n");
}

#[test]
fn a_hunk_is_cut_to_the_lines_that_fit() {
    assert_eq!(render_hunk("@@ -1 +1 @@\n-a\n+b\n c", 2), "@@ -1 +1 @@\n\x1b[38;5;1m-a\x1b[39m\n");
    assert_eq!(render_hunk("@@ -1 +1 @@\n-a\n+b\n c", 4), render_hunk("@@ -1 +1 @@\n-a\n+b\n c", usize::MAX));
    assert_eq!(render_hunk("@@ -1 +1 @@\n-a", 0), "");
    assert_eq!(render_hunk("", 3), "\n");
    assert_eq!(render_hunk("a\n", 3), "a\n\n");
}

#[test]
fn the_viewed_hunk_is_drawn_under_the_legend() {
    let state = session();
    let mut palette = Palette::new();
    assert_eq!(
        state.render_frame(&mut palette),
        format!(
            "{TOP}0/3: \x1b[38;5;9m[0] whole\x1b[39m\r\ndiff --git a/A b/A\r\n@@ -1 +1 @@\r\n\x1b[38;5;1m-a\x1b[39m\r\n\x1b[38;5;2m+b\x1b[39m\r\n\r\n"
        )
    );
    assert_eq!(palette.seen, vec!['0']);
}

#[test]
fn a_hunk_without_a_commit_is_drawn_with_dashes() {
    let mut state = session();
    state.step(1, Event::Key(Key::Right));
    state.step(1, Event::Key(Key::Right));
    state.hunk_commits = vec![Some('0'), None];
    let mut palette = Palette::new();
    assert_eq!(
        state.render_frame(&mut palette),
        "\x1b[1;1H\x1b[2J1/3 hunks assigned\r\n\x1b[38;5;9m0: whole\x1b[39m\r\n2/3: ---\x1b[39m\r\ndiff --git a/B b/B\r\n@@ -2 +2 @@\r\n x\r\n\r\n"
    );
}

#[test]
fn a_small_terminal_cuts_the_hunk() {
    let mut state = session();
    state.force_redraw_terminal_size = (80, 8);
    let mut palette = Palette::new();
    assert_eq!(
        state.render_frame(&mut palette),
        format!(
            "{TOP}0/3: \x1b[38;5;9m[0] whole\x1b[39m\r\ndiff --git a/A b/A\r\n@@ -1 +1 @@\r\n\x1b[38;5;1m-a\x1b[39m\r\n\r\n"
        )
    );
    state.force_redraw_terminal_size = (80, 6);
    assert_eq!(
        state.render_frame(&mut palette),
        format!("{TOP}0/3: \x1b[38;5;9m[0] whole\x1b[39m\r\ndiff --git a/A b/A\r\n\r\n")
    );
    state.force_redraw_terminal_size = (80, 0);
    assert_eq!(
        state.render_frame(&mut palette),
        format!("{TOP}0/3: \x1b[38;5;9m[0] whole\x1b[39m\r\ndiff --git a/A b/A\r\n\r\n")
    );
}

#[test]
fn the_message_that_is_typed_is_drawn() {
    let mut state = session();
    state.step(1, Event::Key(Key::Char('1')));
    state.step(1, Event::Key(Key::Char('a')));
    state.step(1, Event::Key(Key::Char('\n')));
    state.step(1, Event::Key(Key::Char('b')));
    let mut palette = Palette::new();
    assert_eq!(
        state.render_frame(&mut palette),
        format!("{TOP}For \x1b[38;5;11m1\x1b[39m:\r\na\r\nb")
    );
    assert_eq!(palette.seen, vec!['0', '1']);
}

#[test]
fn the_wait_for_a_commit_is_drawn() {
    let mut state = session();
    state.step(1, Event::Key(Key::Backspace));
    let mut palette = Palette::new();
    assert_eq!(state.render_frame(&mut palette), format!("{TOP}Enter commit id to edit: "));
}

#[test]
fn the_status_line_tells_that_a_part_is_enough() {
    let mut state = UiState::new(Vec::new(), "m".to_string()).unwrap();
    state.allow_partial = true;
    let mut palette = Palette::new();
    assert_eq!(
        state.render_frame(&mut palette),
        "\x1b[1;1H\x1b[2J0/0 hunks assigned \x1b[38;5;3mALLOW PARTIAL\x1b[39m\r\n\x1b[38;5;9m0: m\x1b[39m\r\n"
    );
}

#[test]
fn commits_keep_the_colour_of_their_first_drawing() {
    let mut state = session();
    let mut palette = Palette::new();
    state.step(1, Event::Key(Key::Char('7')));
    state.render_frame(&mut palette);
    state.step(1, Event::Key(Key::Esc));
    state.messages.insert('3', CommitInfo { message: "three".to_string() });
    state.messages.insert('7', CommitInfo { message: "seven".to_string() });
    state.step(1, Event::Key(Key::Backspace));
    assert_eq!(
        state.render_frame(&mut palette),
        "\x1b[1;1H\x1b[2J3/3 hunks assigned\r\n\x1b[38;5;9m0: whole\x1b[39m\r\n\x1b[38;5;12m3: three\x1b[39m\r\n\x1b[38;5;11m7: seven\x1b[39m\r\nEnter commit id to edit: "
    );
    assert_eq!(palette.seen, vec!['0', '7', '3']);
}

#[test]
fn the_colours_are_given_out_in_their_order() {
    let mut palette = Palette::new();
    let mut codes: Vec<String> = Vec::new();
    for id in ['5', '2', '5', '0', '1', '3', '4', '6', '7', '8', '9', 'a', '2', 'a'] {
        let mut out = String::new();
        palette.push_color(&mut out, id);
        codes.push(out);
    }
    assert_eq!(
        codes,
        vec![
            "\x1b[38;5;9m",
            "\x1b[38;5;11m",
            "\x1b[38;5;9m",
            "\x1b[38;5;12m",
            "\x1b[38;5;10m",
            "\x1b[38;5;14m",
            "\x1b[38;5;13m",
            "\x1b[38;5;8m",
            "\x1b[38;5;15m",
            "\x1b[38;5;4m",
            "\x1b[38;5;1m",
            "",
            "\x1b[38;5;11m",
            "",
        ]
    );
    assert_eq!(palette.seen, vec!['5', '2', '0', '1', '3', '4', '6', '7', '8', '9', 'a']);
}

#[test]
fn the_colours_are_those_of_the_terminal_library() {
    let mut palette = Palette::new();
    let mut out = String::new();
    palette.push_color(&mut out, '0');
    assert_eq!(out, termion::color::Fg(termion::color::LightRed).to_string());
    assert_eq!(
        render_hunk("+x\n-y", 2),
        format!(
            "{}+x{}\n{}-y{}\n",
            termion::color::Fg(termion::color::Green),
            termion::color::Fg(termion::color::Reset),
            termion::color::Fg(termion::color::Red),
            termion::color::Fg(termion::color::Reset)
        )
    );
    let frame = UiState::new(Vec::new(), String::new()).unwrap().render_frame(&mut palette);
    assert!(frame.starts_with(&format!("{}{}", termion::cursor::Goto(1, 1), termion::clear::All)));
}

#[test]
fn the_pager_is_given_the_header_and_the_whole_hunk() {
    let state = session();
    assert_eq!(
        state.pager_text(0),
        Some("diff --git a/A b/A\n--- a/A\n@@ -1 +1 @@\n\x1b[38;5;1m-a\x1b[39m\n\x1b[38;5;2m+b\x1b[39m\n".to_string())
    );
    assert_eq!(state.pager_text(2), Some("diff --git a/B b/B\n@@ -2 +2 @@\n x\n".to_string()));
    assert_eq!(state.pager_text(3), None);
}
