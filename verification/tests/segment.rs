use git_split::pattern::{LineKind, LinePatterns};
use git_split::segment::{classify_lines, segment, segment_lines, FileSection, Hunk, Line};
use git_split::text::lines;

fn section(header: &str, hunks: &[&str]) -> FileSection {
    FileSection {
        header: header.to_string(),
        hunks: hunks.iter().map(|h| Hunk { body: h.to_string() }).collect(),
    }
}

fn line(kind: LineKind, text: &str) -> Line {
    Line { kind, text: text.to_string() }
}

fn text_of(file: &FileSection) -> String {
    let mut text = file.header.clone();
    for hunk in &file.hunks {
        text.push('\n');
        text.push_str(&hunk.body);
    }
    text
}

const TWO_FILES: &str = "diff --git a/a.txt b/a.txt\nindex 1..2 100644\n--- a/a.txt\n+++ b/a.txt\n@@ -1 +1 @@\n-a\n+b\n@@ -10,2 +10,3 @@ fn x()\n c\n+d\n e\ndiff --git a/b.txt b/b.txt\n--- a/b.txt\n+++ b/b.txt\n@@ -3 +3 @@\n-x\n+y";

#[test]
fn segments_two_files() {
    let files = segment(TWO_FILES).unwrap();
    assert_eq!(
        files,
        vec![
            section(
                "diff --git a/a.txt b/a.txt\nindex 1..2 100644\n--- a/a.txt\n+++ b/a.txt",
                &["@@ -1 +1 @@\n-a\n+b", "@@ -10,2 +10,3 @@ fn x()\n c\n+d\n e"],
            ),
            section("diff --git a/b.txt b/b.txt\n--- a/b.txt\n+++ b/b.txt", &["@@ -3 +3 @@\n-x\n+y"]),
        ]
    );
}

#[test]
fn sections_and_hunks_are_as_many_as_the_boundaries() {
    let patterns = LinePatterns::new().unwrap();
    let classified = classify_lines(&patterns, lines(TWO_FILES));
    let file_starts = classified.iter().filter(|l| l.kind == LineKind::FileStart).count();
    let hunk_starts = classified.iter().filter(|l| l.kind == LineKind::HunkStart).count();
    let files = segment_lines(&classified);
    assert_eq!(file_starts, 2);
    assert_eq!(hunk_starts, 3);
    assert_eq!(files.len(), file_starts);
    assert_eq!(files.iter().map(|f| f.hunks.len()).sum::<usize>(), hunk_starts);
}

#[test]
fn sections_give_back_their_lines() {
    let files = segment(TWO_FILES).unwrap();
    let texts: Vec<String> = files.iter().map(text_of).collect();
    assert_eq!(texts.join("\n"), TWO_FILES);
    assert_eq!(
        texts[1],
        "diff --git a/b.txt b/b.txt\n--- a/b.txt\n+++ b/b.txt\n@@ -3 +3 @@\n-x\n+y"
    );
}

#[test]
fn a_trailing_line_feed_stays_in_the_last_hunk() {
    let files = segment("diff a\n@@ -1 +1 @@\n+x\n").unwrap();
    assert_eq!(files, vec![section("diff a", &["@@ -1 +1 @@\n+x\n"])]);
}

#[test]
fn empty_input_has_no_sections() {
    assert_eq!(segment("").unwrap(), Vec::<FileSection>::new());
}

#[test]
fn a_file_without_hunks_is_a_section() {
    let files = segment("diff --git a/x b/x\nnew file mode 100644").unwrap();
    assert_eq!(files, vec![section("diff --git a/x b/x\nnew file mode 100644", &[])]);
}

#[test]
fn text_before_the_first_file_is_a_section_of_its_own() {
    let files = segment("warning: something\ndiff a\n@@ -1 +1 @@").unwrap();
    assert_eq!(
        files,
        vec![section("warning: something", &[]), section("diff a", &["@@ -1 +1 @@"])]
    );
}

#[test]
fn hunks_without_a_header_are_dropped() {
    let files = segment("@@ -1 +1 @@\n+x\ndiff a\n@@ -2 +2 @@").unwrap();
    assert_eq!(files, vec![section("diff a", &["@@ -2 +2 @@"])]);
}

#[test]
fn hunk_boundaries_need_both_ranges() {
    let patterns = LinePatterns::new().unwrap();
    assert_eq!(patterns.classify("@@ -1 +1 @@"), LineKind::HunkStart);
    assert_eq!(patterns.classify("@@ -1,2 +3,4 @@ trailing"), LineKind::HunkStart);
    assert_eq!(patterns.classify("@@ -12,0 +13 @@"), LineKind::HunkStart);
    assert_eq!(patterns.classify("@@ -1 @@"), LineKind::Other);
    assert_eq!(patterns.classify("@@ -a +b @@"), LineKind::Other);
    assert_eq!(patterns.classify("@@ -1, +1 @@"), LineKind::Other);
    assert_eq!(patterns.classify("@@"), LineKind::Other);
    assert_eq!(patterns.classify(""), LineKind::Other);
    assert_eq!(patterns.classify("+added"), LineKind::Other);
}

#[test]
fn file_boundaries_hold_the_word_diff() {
    let patterns = LinePatterns::new().unwrap();
    assert_eq!(patterns.classify("diff --git a/x b/x"), LineKind::FileStart);
    assert_eq!(patterns.classify("diff "), LineKind::FileStart);
    assert_eq!(patterns.classify("diff"), LineKind::Other);
    assert_eq!(patterns.classify("index 1..2"), LineKind::Other);
    assert_eq!(patterns.classify("diff --git @@ -1 +1 @@"), LineKind::FileStart);
}

#[test]
fn a_content_line_that_looks_like_a_boundary_is_taken_for_one() {
    let files = segment("diff a\n@@ -1,2 +1,2 @@\n-@@ -9 +9 @@\n+the diff is here").unwrap();
    assert_eq!(
        files,
        vec![section("diff a", &["@@ -1,2 +1,2 @@", "-@@ -9 +9 @@"]), section("+the diff is here", &[])]
    );
}

#[test]
fn segment_lines_goes_by_the_kinds_it_is_given() {
    let files = segment_lines(&vec![
        line(LineKind::FileStart, "file one"),
        line(LineKind::Other, "more header"),
        line(LineKind::HunkStart, "hunk one"),
        line(LineKind::Other, "body"),
        line(LineKind::Other, ""),
        line(LineKind::HunkStart, "hunk two"),
        line(LineKind::FileStart, "file two"),
    ]);
    assert_eq!(
        files,
        vec![
            section("file one\nmore header", &["hunk one\nbody\n", "hunk two"]),
            section("file two", &[]),
        ]
    );
}

#[test]
fn segment_lines_of_nothing_is_nothing() {
    assert_eq!(segment_lines(&Vec::new()), Vec::<FileSection>::new());
}

#[test]
fn a_first_line_that_is_empty_opens_no_header() {
    let files = segment_lines(&vec![line(LineKind::Other, ""), line(LineKind::FileStart, "f")]);
    assert_eq!(files, vec![section("f", &[])]);
    let files = segment_lines(&vec![line(LineKind::Other, ""), line(LineKind::Other, "x")]);
    assert_eq!(files, vec![section("\nx", &[])]);
}

#[test]
fn lines_are_what_stands_between_line_feeds() {
    assert_eq!(lines(""), vec![String::new()]);
    assert_eq!(lines("a"), vec!["a".to_string()]);
    assert_eq!(lines("a\n"), vec!["a".to_string(), String::new()]);
    assert_eq!(lines("\n\nb"), vec![String::new(), String::new(), "b".to_string()]);
    assert_eq!(lines("a\r\nb"), vec!["a\r".to_string(), "b".to_string()]);
}
