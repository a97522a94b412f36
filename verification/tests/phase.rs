use git_split::backend::{
    abort_args, apply_args, clean_check_args, commit_args, context_size, diff_args, message_args,
    parse_size, rebase_args, revert_args, revert_message, stage_args, stage_modified_args,
};
use git_split::phase::{
    rebase_todo, rev_parse, vec_to_utf8, Mode, ENV_CONTEXT_SIZE, ENV_MODE, ENV_TARGET_COMMIT,
    GIT_SEQUENCE_EDITOR,
};
use git_split::text::{add_carriage_returns, is_blank, trim_end};

#[test]
fn the_phases_have_their_names() {
    assert_eq!(Mode::Initial.name(), "initial");
    assert_eq!(Mode::RebaseTodo.name(), "rebase_todo");
    assert_eq!(Mode::HunkSplit.name(), "hunk_split");
    assert_eq!(Mode::default(), Mode::Initial);
}

#[test]
fn a_phase_is_found_by_its_name() {
    for mode in [Mode::Initial, Mode::RebaseTodo, Mode::HunkSplit] {
        assert_eq!(Mode::parse(mode.name()), Some(mode));
    }
    assert_eq!(Mode::parse(""), None);
    assert_eq!(Mode::parse("Initial"), None);
    assert_eq!(Mode::parse("hunk-split"), None);
    assert_eq!(Mode::parse("hunk_split "), None);
    assert_eq!(Mode::parse("HunkSplit"), None);
}

#[test]
fn the_variables_have_their_names() {
    assert_eq!(ENV_TARGET_COMMIT, "KGIT_SPLIT_ENV_TARGET_COMMIT");
    assert_eq!(ENV_MODE, "KGIT_SPLIT_ENV_MODE");
    assert_eq!(ENV_CONTEXT_SIZE, "KGIT_SPLIT_ENV_CONTEXT_SIZE");
    assert_eq!(GIT_SEQUENCE_EDITOR, "GIT_SEQUENCE_EDITOR");
}

#[test]
fn valid_bytes_are_decoded() {
    assert_eq!(vec_to_utf8(Vec::new()), "");
    assert_eq!(vec_to_utf8(b"plain\n".to_vec()), "plain\n");
    assert_eq!(vec_to_utf8("héllo ✓ 𝄞".as_bytes().to_vec()), "héllo ✓ 𝄞");
}

#[test]
fn invalid_bytes_are_decoded_as_far_as_they_can_be() {
    assert_eq!(vec_to_utf8(vec![b'f', 0xff, b'o']), "f\u{fffd}o");
    assert_eq!(vec_to_utf8(vec![0xc3]), "\u{fffd}");
    assert_eq!(vec_to_utf8(vec![0xe2, 0x9c]), "\u{fffd}");
    assert_eq!(vec_to_utf8(vec![0xed, 0xa0, 0x80]), "\u{fffd}\u{fffd}\u{fffd}");
}

#[test]
fn the_commit_id_is_the_output_without_its_end() {
    assert_eq!(rev_parse("0123abcd\n"), "0123abcd");
    assert_eq!(rev_parse("0123abcd"), "0123abcd");
    assert_eq!(rev_parse("  a b \t\r\n\n"), "  a b");
    assert_eq!(rev_parse("\n"), "");
    assert_eq!(rev_parse(""), "");
}

#[test]
fn white_space_is_that_of_unicode() {
    assert_eq!(trim_end("x\u{a0}\u{2003}\u{3000}"), "x");
    assert_eq!(trim_end("x\u{200b}"), "x\u{200b}");
    assert!(is_blank(""));
    assert!(is_blank(" \t\r\n\u{a0}"));
    assert!(!is_blank(" . "));
    assert!(!is_blank("\u{200b}"));
}

#[test]
fn carriage_returns_are_put_before_line_feeds() {
    assert_eq!(add_carriage_returns(""), "");
    assert_eq!(add_carriage_returns("a\nb\n\n"), "a\r\nb\r\n\r\n");
    assert_eq!(add_carriage_returns("a\r\n"), "a\r\r\n");
}

#[test]
fn the_list_of_the_rebase_is_rewritten() {
    assert_eq!(
        rebase_todo(
            "pick 1111111 first\npick 2222222 second\n\n# Rebase 0000000..2222222 onto 0000000\n#\n# Commands:\n",
            "/usr/local/bin/git-split",
            "1111111"
        ),
        "x env KGIT_SPLIT_ENV_MODE=hunk_split \"/usr/local/bin/git-split\" --commit \"1111111\"\npick 1111111 first\npick 2222222 second"
    );
}

#[test]
fn what_the_list_names_is_quoted() {
    assert_eq!(
        rebase_todo("# nothing\n", "C:\\bin\\a \"b\".exe", "a\tb"),
        "x env KGIT_SPLIT_ENV_MODE=hunk_split \"C:\\\\bin\\\\a \\\"b\\\".exe\" --commit \"a\\tb\"\n"
    );
    assert_eq!(
        rebase_todo(" # kept\npick", "e", "c"),
        "x env KGIT_SPLIT_ENV_MODE=hunk_split \"e\" --commit \"c\"\n # kept\npick"
    );
}

#[test]
fn the_context_is_what_the_variable_says() {
    assert_eq!(context_size(None), 1);
    assert_eq!(context_size(Some("0")), 0);
    assert_eq!(context_size(Some("3")), 3);
    assert_eq!(context_size(Some("+12")), 12);
    assert_eq!(context_size(Some("007")), 7);
    assert_eq!(context_size(Some("18446744073709551615")), 18446744073709551615);
}

#[test]
fn what_is_no_size_gives_the_default_context() {
    for text in ["", "+", "-1", "-0", " 2", "2 ", "1.5", "x", "1x", "++1", "1+", "٣", "18446744073709551616", "99999999999999999999999999"] {
        assert_eq!(context_size(Some(text)), 1);
        assert_eq!(parse_size(text), None);
    }
}

#[test]
fn sizes_are_read_as_the_standard_library_reads_them() {
    for text in ["", "+", "+0", "0", "00", "10", "+10", "-10", "18446744073709551615", "18446744073709551616", "1e3", "0x10", " 1", "१"] {
        assert_eq!(parse_size(text), text.parse::<usize>().ok());
    }
}

fn strings(words: &[&str]) -> Vec<String> {
    words.iter().map(|w| w.to_string()).collect()
}

#[test]
fn the_backend_is_asked_with_these_arguments() {
    assert_eq!(rebase_args("abc"), strings(&["rebase", "-i", "abc"]));
    assert_eq!(diff_args("abc", 1), strings(&["diff", "-p", "-U1", "abc~", "abc"]));
    assert_eq!(diff_args("abc", 0), strings(&["diff", "-p", "-U0", "abc~", "abc"]));
    assert_eq!(diff_args("abc", 120), strings(&["diff", "-p", "-U120", "abc~", "abc"]));
    assert_eq!(
        message_args("abc"),
        strings(&["log", "--reverse", "--pretty=format:%B", "abc~..abc"])
    );
    assert_eq!(revert_args("abc"), strings(&["revert", "--no-commit", "abc"]));
    assert_eq!(commit_args("a message\n"), strings(&["commit", "-m", "a message\n"]));
    assert_eq!(stage_args("src/a b.rs"), strings(&["add", "src/a b.rs"]));
    assert_eq!(stage_modified_args(), strings(&["add", "-u"]));
    assert_eq!(clean_check_args("abc"), strings(&["diff", "--quiet", "abc"]));
    assert_eq!(abort_args(), strings(&["rebase", "--abort"]));
}

#[test]
fn a_diff_without_context_is_applied_as_one() {
    assert_eq!(apply_args(0), strings(&["apply", "--reject", "--unidiff-zero"]));
    assert_eq!(apply_args(1), strings(&["apply", "--reject"]));
    assert_eq!(apply_args(3), strings(&["apply", "--reject"]));
}

#[test]
fn the_revert_is_committed_under_the_message_of_the_commit() {
    assert_eq!(revert_message("abc", "subject\n\nbody"), "@split Revert abc: subject\n\nbody");
}
