use vstd::prelude::*;
use vstd::utf8::{decode_utf8, valid_utf8};
use crate::text::{lines, push_char, split_lines, trim_end, trimmed_end};

verus! {

/// The environment variable that tells a later run which commit is split.
pub const ENV_TARGET_COMMIT: &'static str = "KGIT_SPLIT_ENV_TARGET_COMMIT";

/// The environment variable that tells a run which phase it is.
pub const ENV_MODE: &'static str = "KGIT_SPLIT_ENV_MODE";

/// The environment variable that sets the lines of context of the diff.
pub const ENV_CONTEXT_SIZE: &'static str = "KGIT_SPLIT_ENV_CONTEXT_SIZE";

/// The environment variable by which the backend is told its sequence
/// editor.
pub const GIT_SEQUENCE_EDITOR: &'static str = "GIT_SEQUENCE_EDITOR";

/// The phase of a run. The program runs three times in a session: to begin
/// the rebase, to rewrite the rebase's list of instructions, and to split
/// the hunks.
#[derive(Clone, Copy, Debug, PartialEq, Eq, Structural)]
pub enum Mode {
    Initial,
    RebaseTodo,
    HunkSplit,
}

/// The name of a phase.
pub open spec fn mode_name(mode: Mode) -> Seq<char> {
    match mode {
        Mode::Initial => "initial"@,
        Mode::RebaseTodo => "rebase_todo"@,
        Mode::HunkSplit => "hunk_split"@,
    }
}

impl Default for Mode {
    fn default() -> (mode: Mode)
        ensures
            mode == Mode::Initial,
    {
        Mode::Initial
    }
}

/// The names of the phases differ from each other.
pub proof fn lemma_mode_names_differ(a: Mode, b: Mode)
    ensures
        mode_name(a) == mode_name(b) ==> a == b,
{
    reveal_strlit("initial");
    reveal_strlit("rebase_todo");
    reveal_strlit("hunk_split");
    assert(mode_name(Mode::Initial).len() == 7);
    assert(mode_name(Mode::RebaseTodo).len() == 11);
    assert(mode_name(Mode::HunkSplit).len() == 10);
}

impl Mode {
    /// The name of the phase.
    pub fn name(&self) -> (name: &'static str)
        ensures
            name@ == mode_name(*self),
    {
        match self {
            Mode::Initial => "initial",
            Mode::RebaseTodo => "rebase_todo",
            Mode::HunkSplit => "hunk_split",
        }
    }

    /// The phase of the given name, if it is the name of a phase.
    pub fn parse(name: &str) -> (mode: Option<Mode>)
        ensures
            mode matches Some(m) ==> name@ == mode_name(m),
            mode is None ==> forall|m: Mode| name@ != mode_name(m),
    {
        let given = name.to_owned();
        if given == Mode::Initial.name().to_owned() {
            Some(Mode::Initial)
        } else if given == Mode::RebaseTodo.name().to_owned() {
            Some(Mode::RebaseTodo)
        } else if given == Mode::HunkSplit.name().to_owned() {
            Some(Mode::HunkSplit)
        } else {
            None
        }
    }
}

/// What `String::from_utf8_lossy` makes of the bytes.
pub uninterp spec fn utf8_lossy(bytes: Seq<u8>) -> Seq<char>;

/// `String::from_utf8` turns bytes into a string where they are valid
/// UTF-8, and hands them back where they are not.
#[verifier::external_body]
fn string_from_utf8(bytes: Vec<u8>) -> (r: Result<String, Vec<u8>>)
    ensures
        r is Ok <==> valid_utf8(bytes@),
        r matches Ok(text) ==> text@ == decode_utf8(bytes@),
        r matches Err(rejected) ==> rejected@ == bytes@,
{
    match String::from_utf8(bytes) {
        Ok(text) => Ok(text),
        Err(e) => Err(e.into_bytes()),
    }
}

/// `String::from_utf8_lossy` turns any bytes into a string; what it makes of
/// them depends on the bytes alone.
#[verifier::external_body]
fn string_from_utf8_lossy(bytes: &[u8]) -> (text: String)
    ensures
        text@ == utf8_lossy(bytes@),
{
    String::from_utf8_lossy(bytes).into_owned()
}

/// The text of what a command printed.
pub open spec fn text_of_bytes(bytes: Seq<u8>) -> Seq<char> {
    if valid_utf8(bytes) {
        decode_utf8(bytes)
    } else {
        utf8_lossy(bytes)
    }
}

/// The text of what a command printed: the bytes decoded as UTF-8 or, where
/// they are not valid, decoded as far as they can be.
pub fn vec_to_utf8(s: Vec<u8>) -> (text: String)
    ensures
        text@ == text_of_bytes(s@),
{
    match string_from_utf8(s) {
        Ok(text) => text,
        Err(rejected) => string_from_utf8_lossy(rejected.as_slice()),
    }
}

/// The commit id in what the backend printed when it resolved a reference:
/// the output without the white space at its end.
pub fn rev_parse(output: &str) -> (commit: String)
    ensures
        commit@ == trimmed_end(output@),
{
    trim_end(output)
}

/// The items with `sep` between each two of them.
pub open spec fn joined(items: Seq<Seq<char>>, sep: Seq<char>) -> Seq<char>
    decreases items.len(),
{
    if items.len() == 0 {
        Seq::empty()
    } else if items.len() == 1 {
        items[0]
    } else {
        joined(items.drop_last(), sep) + sep + items.last()
    }
}

/// `itertools::Itertools::format` writes the items with the separator
/// between each two of them; a string is written as it is.
#[verifier::external_body]
fn join_with(items: &Vec<String>, sep: &str) -> (out: String)
    ensures
        out@ == joined(items.deep_view(), sep@),
{
    format!("{}", itertools::Itertools::format(items.iter(), sep))
}

/// What `Debug` prints for a text: the text in double quotes, with what
/// needs it escaped.
pub uninterp spec fn debug_text(text: Seq<char>) -> Seq<char>;

/// `format!` with `{:?}` on a `str`. What it prints depends on the text
/// alone.
#[verifier::external_body]
fn debug_quoted(text: &str) -> (out: String)
    ensures
        out@ == debug_text(text@),
{
    format!("{:?}", text)
}

/// A line of the rebase's list that is an instruction: neither empty nor a
/// comment.
pub open spec fn is_instruction(line: Seq<char>) -> bool {
    line.len() > 0 && line[0] != '#'
}

/// The instructions among the lines, in their order.
pub open spec fn instructions(lines: Seq<Seq<char>>) -> Seq<Seq<char>>
    decreases lines.len(),
{
    if lines.len() == 0 {
        Seq::empty()
    } else if is_instruction(lines.last()) {
        instructions(lines.drop_last()).push(lines.last())
    } else {
        instructions(lines.drop_last())
    }
}

/// The instruction that makes the rebase run the program again, to split
/// the hunks of the commit.
pub open spec fn split_instruction(exe: Seq<char>, commit: Seq<char>) -> Seq<char> {
    "x env "@ + ENV_MODE@ + "="@ + mode_name(Mode::HunkSplit) + " "@ + debug_text(exe)
        + " --commit "@ + debug_text(commit)
}

/// The rebase's list of instructions, rewritten: first the instruction
/// that splits the hunks, then the instructions that were there, without
/// comments and empty lines.
pub open spec fn rebase_todo_of(raw: Seq<char>, exe: Seq<char>, commit: Seq<char>) -> Seq<char> {
    split_instruction(exe, commit) + seq!['\n'] + joined(
        instructions(split_lines(raw)),
        seq!['\n'],
    )
}

/// Rewrites the rebase's list of instructions so that the rebase first runs
/// `exe` to split the hunks of `commit`.
pub fn rebase_todo(raw: &str, exe: &str, commit: &str) -> (todo: String)
    ensures
        todo@ == rebase_todo_of(raw@, exe@, commit@),
{
    let all = lines(raw);
    let ghost texts = split_lines(raw@);
    let mut kept: Vec<String> = Vec::new();
    let mut i: usize = 0;
    assert(texts.take(0) =~= Seq::empty());
    assert(kept.deep_view() =~= Seq::empty());
    while i < all.len()
        invariant
            i <= all.len(),
            texts == all.deep_view(),
            kept.deep_view() == instructions(texts.take(i as int)),
        decreases all.len() - i,
    {
        let line = all[i].as_str();
        proof {
            assert(texts.take(i + 1).drop_last() =~= texts.take(i as int));
            assert(texts.take(i + 1).last() == line@);
        }
        if !line.is_empty() && line.get_char(0) != '#' {
            let ghost before = kept.deep_view();
            kept.push(line.to_owned());
            assert(kept.deep_view() =~= before.push(line@));
        }
        i += 1;
    }
    assert(texts.take(i as int) =~= texts);
    let mut todo = String::new();
    todo.append("x env ");
    todo.append(ENV_MODE);
    todo.append("=");
    todo.append(Mode::HunkSplit.name());
    todo.append(" ");
    todo.append(debug_quoted(exe).as_str());
    todo.append(" --commit ");
    todo.append(debug_quoted(commit).as_str());
    push_char(&mut todo, '\n');
    proof {
        reveal_strlit("\n");
        assert("\n"@ =~= seq!['\n']);
    }
    todo.append(join_with(&kept, "\n").as_str());
    assert(todo@ =~= rebase_todo_of(raw@, exe@, commit@));
    todo
}

} // verus!
