use vstd::prelude::*;
use regex::Regex;

verus! {

/// A compiled regex of the `regex` crate. Nothing of its inside is known
/// here.
#[verifier::external_type_specification]
#[verifier::external_body]
pub struct ExRegex(regex::Regex);

/// The error of the `regex` crate's compiler. Nothing of its inside is known
/// here.
#[verifier::external_type_specification]
#[verifier::external_body]
pub struct ExRegexError(regex::Error);

/// Whether the regex compiler accepts `pattern`.
pub uninterp spec fn regex_compiles(pattern: Seq<char>) -> bool;

/// The pattern text that a compiled regex was built from.
pub uninterp spec fn regex_source(re: Regex) -> Seq<char>;

/// Whether a compiled regex was built by `Regex::new`, under the options
/// that it sets when nothing else is said.
pub uninterp spec fn regex_plain(re: Regex) -> bool;

/// Whether the regex that `Regex::new` compiles from `pattern` matches
/// somewhere in `haystack`.
pub uninterp spec fn regex_finds(pattern: Seq<char>, haystack: Seq<char>) -> bool;

/// `Regex::new` compiles a pattern under the options of a builder that was
/// told nothing. Whether it succeeds depends on the pattern alone (the size
/// limit is the crate's default), and the regex it returns remembers the
/// pattern it was built from.
pub assume_specification[ regex::Regex::new ](re: &str) -> (r: Result<regex::Regex, regex::Error>)
    ensures
        r is Ok <==> regex_compiles(re@),
        r matches Ok(compiled) ==> regex_source(compiled) == re@ && regex_plain(compiled),
;

/// `Regex::is_match` reports whether the regex matches anywhere in the
/// haystack. For a regex that `Regex::new` built the answer depends on the
/// pattern and the haystack alone; of a regex built under other options
/// nothing is said.
pub assume_specification[ regex::Regex::is_match ](re: &regex::Regex, haystack: &str) -> (b: bool)
    ensures
        regex_plain(*re) ==> b == regex_finds(regex_source(*re), haystack@),
;

/// The pattern of a line that opens the diff of one file: the word `diff`
/// and a space, wherever in the line they stand.
pub const FILE_BOUNDARY: &'static str = "diff .*";

/// The pattern of a line that opens a hunk: `@@ -a[,b] +c[,d] @@`, wherever
/// in the line it stands.
pub const HUNK_BOUNDARY: &'static str = r"@@ \-\d+(?:,\d+)? \+\d+(?:,\d+)? @@";

/// What a line of a diff is to the segmenter.
#[derive(Clone, Copy, Debug, PartialEq, Eq, Structural)]
pub enum LineKind {
    /// The first line of a file's diff.
    FileStart,
    /// The first line of a hunk.
    HunkStart,
    /// Any other line: it continues what is open.
    Other,
}

/// Which of the two line patterns the regex compiler refused.
#[derive(Clone, Copy, Debug, PartialEq, Eq, Structural)]
pub enum PatternError {
    FileBoundary,
    HunkBoundary,
}

/// The kind of a line. An empty line is never a boundary; otherwise the file
/// pattern is tried before the hunk pattern. A line is judged by itself, so a
/// line of a hunk's body that matches a pattern is taken for a boundary.
pub open spec fn line_kind(line: Seq<char>) -> LineKind {
    if line.len() == 0 {
        LineKind::Other
    } else if regex_finds(FILE_BOUNDARY@, line) {
        LineKind::FileStart
    } else if regex_finds(HUNK_BOUNDARY@, line) {
        LineKind::HunkStart
    } else {
        LineKind::Other
    }
}

/// The two compiled line patterns.
pub struct LinePatterns {
    file: Regex,
    hunk: Regex,
}

impl LinePatterns {
    #[verifier::type_invariant]
    spec fn built_from_the_line_patterns(self) -> bool {
        &&& regex_plain(self.file)
        &&& regex_source(self.file) == FILE_BOUNDARY@
        &&& regex_plain(self.hunk)
        &&& regex_source(self.hunk) == HUNK_BOUNDARY@
    }

    /// Compiles both patterns, the file pattern first.
    pub fn new() -> (r: Result<LinePatterns, PatternError>)
        ensures
            r is Ok <==> regex_compiles(FILE_BOUNDARY@) && regex_compiles(HUNK_BOUNDARY@),
            r == Err::<LinePatterns, _>(PatternError::FileBoundary) <==> !regex_compiles(
                FILE_BOUNDARY@,
            ),
    {
        match Regex::new(FILE_BOUNDARY) {
            Err(_) => Err(PatternError::FileBoundary),
            Ok(file) => match Regex::new(HUNK_BOUNDARY) {
                Err(_) => Err(PatternError::HunkBoundary),
                Ok(hunk) => Ok(LinePatterns { file, hunk }),
            },
        }
    }

    /// Classifies one line.
    pub fn classify(&self, line: &str) -> (kind: LineKind)
        ensures
            kind == line_kind(line@),
    {
        proof {
            use_type_invariant(self);
        }
        if line.is_empty() {
            LineKind::Other
        } else if self.file.is_match(line) {
            LineKind::FileStart
        } else if self.hunk.is_match(line) {
            LineKind::HunkStart
        } else {
            LineKind::Other
        }
    }
}

} // verus!
