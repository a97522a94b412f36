use vstd::prelude::*;
use crate::pattern::{line_kind, regex_compiles, LineKind, LinePatterns, PatternError};
use crate::pattern::{FILE_BOUNDARY, HUNK_BOUNDARY};
use crate::text::{lines, push_char, split_lines};

verus! {

/// One hunk of a file's diff: its boundary line and what follows it, verbatim.
#[derive(Clone, Debug, PartialEq, Eq)]
pub struct Hunk {
    pub body: String,
}

/// The diff of one file: its header and its hunks, in the order of the diff.
#[derive(Clone, Debug, PartialEq, Eq)]
pub struct FileSection {
    pub header: String,
    pub hunks: Vec<Hunk>,
}

/// A line of a diff together with its kind.
#[derive(Clone, Debug, PartialEq, Eq)]
pub struct Line {
    pub kind: LineKind,
    pub text: String,
}

/// A file section as contracts speak of it: its header and the bodies of
/// its hunks.
pub struct FileSectionView {
    pub header: Seq<char>,
    pub hunks: Seq<Seq<char>>,
}

/// A classified line as contracts speak of it.
pub struct LineView {
    pub kind: LineKind,
    pub text: Seq<char>,
}

impl View for Hunk {
    type V = Seq<char>;

    open spec fn view(&self) -> Seq<char> {
        self.body@
    }
}

impl DeepView for Hunk {
    type V = Seq<char>;

    open spec fn deep_view(&self) -> Seq<char> {
        self.body@
    }
}

impl View for FileSection {
    type V = FileSectionView;

    open spec fn view(&self) -> FileSectionView {
        FileSectionView { header: self.header@, hunks: self.hunks.deep_view() }
    }
}

impl DeepView for FileSection {
    type V = FileSectionView;

    open spec fn deep_view(&self) -> FileSectionView {
        self@
    }
}

impl View for Line {
    type V = LineView;

    open spec fn view(&self) -> LineView {
        LineView { kind: self.kind, text: self.text@ }
    }
}

impl DeepView for Line {
    type V = LineView;

    open spec fn deep_view(&self) -> LineView {
        self@
    }
}

/// How many hunks the sections hold together.
pub open spec fn hunk_total(files: Seq<FileSectionView>) -> nat
    decreases files.len(),
{
    if files.len() == 0 {
        0
    } else {
        hunk_total(files.drop_last()) + files.last().hunks.len()
    }
}

/// What the scanner holds after some lines: the sections that are closed,
/// and the header and hunks of the one that is open. `fresh` holds until the
/// first line has been taken.
pub struct Scan {
    pub done: Seq<FileSectionView>,
    pub header: Seq<char>,
    pub hunks: Seq<Seq<char>>,
    pub fresh: bool,
}

/// The scanner before the first line.
pub open spec fn scan_start() -> Scan {
    Scan { done: Seq::empty(), header: Seq::empty(), hunks: Seq::empty(), fresh: true }
}

/// The closed sections once the open one is closed too. An open section
/// without a header is dropped.
pub open spec fn flushed(s: Scan) -> Seq<FileSectionView> {
    if s.header.len() > 0 {
        s.done.push(FileSectionView { header: s.header, hunks: s.hunks })
    } else {
        s.done
    }
}

/// `text` continued by `line` on a line of its own.
pub open spec fn continued(text: Seq<char>, line: Seq<char>) -> Seq<char> {
    text + seq!['\n'] + line
}

/// One step of the scanner.
pub open spec fn scan_line(s: Scan, line: LineView) -> Scan {
    match line.kind {
        LineKind::FileStart => Scan {
            done: flushed(s),
            header: line.text,
            hunks: Seq::empty(),
            fresh: false,
        },
        LineKind::HunkStart => Scan { hunks: s.hunks.push(line.text), fresh: false, ..s },
        LineKind::Other => if s.hunks.len() > 0 {
            Scan {
                hunks: s.hunks.update(s.hunks.len() - 1, continued(s.hunks.last(), line.text)),
                fresh: false,
                ..s
            }
        } else if s.fresh {
            Scan { header: line.text, fresh: false, ..s }
        } else {
            Scan { header: continued(s.header, line.text), fresh: false, ..s }
        },
    }
}

/// The scanner after the lines.
pub open spec fn scan(lines: Seq<LineView>) -> Scan
    decreases lines.len(),
{
    if lines.len() == 0 {
        scan_start()
    } else {
        scan_line(scan(lines.drop_last()), lines.last())
    }
}

/// The file sections of a diff given as classified lines.
pub open spec fn sections_of(lines: Seq<LineView>) -> Seq<FileSectionView> {
    flushed(scan(lines))
}

/// Each text with the kind that the line patterns give it.
pub open spec fn classified(texts: Seq<Seq<char>>) -> Seq<LineView> {
    Seq::new(texts.len(), |i: int| LineView { kind: line_kind(texts[i]), text: texts[i] })
}

/// Segments classified lines into file sections.
pub fn segment_lines(lines: &Vec<Line>) -> (files: Vec<FileSection>)
    ensures
        files.deep_view() == sections_of(lines.deep_view()),
{
    let mut done: Vec<FileSection> = Vec::new();
    let mut header = String::new();
    let mut hunks: Vec<Hunk> = Vec::new();
    let mut fresh = true;
    let ghost all = lines.deep_view();
    let mut i: usize = 0;
    assert(all.take(0) =~= Seq::empty());
    assert(done.deep_view() =~= Seq::empty());
    assert(hunks.deep_view() =~= Seq::empty());
    while i < lines.len()
        invariant
            i <= lines.len(),
            all == lines.deep_view(),
            scan(all.take(i as int)) == (Scan {
                done: done.deep_view(),
                header: header@,
                hunks: hunks.deep_view(),
                fresh,
            }),
        decreases lines.len() - i,
    {
        let line = &lines[i];
        proof {
            assert(all.take(i + 1).drop_last() =~= all.take(i as int));
            assert(all.take(i + 1).last() == line@);
        }
        match line.kind {
            LineKind::FileStart => {
                if !header.as_str().is_empty() {
                    let ghost closed = done.deep_view();
                    let section = FileSection { header, hunks };
                    done.push(section);
                    assert(done.deep_view() =~= closed.push(section@));
                }
                header = line.text.clone();
                hunks = Vec::new();
                assert(hunks.deep_view() =~= Seq::empty());
            },
            LineKind::HunkStart => {
                let ghost open = hunks.deep_view();
                hunks.push(Hunk { body: line.text.clone() });
                assert(hunks.deep_view() =~= open.push(line.text@));
            },
            LineKind::Other => {
                let ghost open = hunks.deep_view();
                let ghost open_header = header@;
                match hunks.pop() {
                    Some(last) => {
                        assert(last.body@ == open.last());
                        let mut body = last.body;
                        push_char(&mut body, '\n');
                        body.append(line.text.as_str());
                        assert(body@ =~= continued(open.last(), line.text@));
                        hunks.push(Hunk { body });
                        assert(hunks.deep_view() =~= open.update(
                            open.len() - 1,
                            continued(open.last(), line.text@),
                        ));
                    },
                    None => {
                        assert(hunks.deep_view() =~= open);
                        if fresh {
                            header = line.text.clone();
                        } else {
                            push_char(&mut header, '\n');
                            header.append(line.text.as_str());
                            assert(header@ =~= continued(open_header, line.text@));
                        }
                    },
                }
            },
        }
        fresh = false;
        i += 1;
    }
    assert(all.take(i as int) =~= all);
    if !header.as_str().is_empty() {
        let ghost closed = done.deep_view();
        let section = FileSection { header, hunks };
        done.push(section);
        assert(done.deep_view() =~= closed.push(section@));
    }
    done
}

/// Classifies each line of a diff.
pub fn classify_lines(patterns: &LinePatterns, texts: Vec<String>) -> (out: Vec<Line>)
    ensures
        out.deep_view() == classified(texts.deep_view()),
{
    let mut out: Vec<Line> = Vec::new();
    let ghost all = texts.deep_view();
    let mut i: usize = 0;
    while i < texts.len()
        invariant
            i <= texts.len(),
            all == texts.deep_view(),
            out.deep_view() =~= classified(all.take(i as int)),
        decreases texts.len() - i,
    {
        let text = texts[i].clone();
        let kind = patterns.classify(text.as_str());
        let ghost so_far = out.deep_view();
        let line = Line { kind, text };
        out.push(line);
        proof {
            assert(out.deep_view() =~= so_far.push(line@));
            assert(all[i as int] == texts[i as int]@);
        }
        i += 1;
    }
    assert(all.take(i as int) =~= all);
    out
}

/// Whether both line patterns are accepted by the regex compiler.
pub open spec fn line_patterns_compile() -> bool {
    regex_compiles(FILE_BOUNDARY@) && regex_compiles(HUNK_BOUNDARY@)
}

/// Segments a raw multi-file diff into its file sections.
pub fn segment(raw: &str) -> (r: Result<Vec<FileSection>, PatternError>)
    ensures
        r is Ok <==> line_patterns_compile(),
        r matches Ok(files) ==> files.deep_view() == sections_of(classified(split_lines(raw@))),
        r matches Err(e) ==> (e == PatternError::FileBoundary <==> !regex_compiles(
            FILE_BOUNDARY@,
        )),
{
    match LinePatterns::new() {
        Err(e) => Err(e),
        Ok(patterns) => {
            let texts = lines(raw);
            let classified = classify_lines(&patterns, texts);
            Ok(segment_lines(&classified))
        },
    }
}

} // verus!
