use vstd::prelude::*;
use crate::text::{decimal, push_decimal};

verus! {

/// The lines of context that a diff is asked with where nothing else is
/// said.
pub const DEFAULT_CONTEXT: usize = 1;

/// The number that a run of decimal digits stands for, if the text is one.
pub open spec fn digits_value(text: Seq<char>) -> Option<nat>
    decreases text.len(),
{
    if text.len() == 0 {
        None
    } else if !('0' <= text.last() && text.last() <= '9') {
        None
    } else if text.len() == 1 {
        Some((text.last() as nat - 48) as nat)
    } else {
        match digits_value(text.drop_last()) {
            Some(v) => Some((10 * v + (text.last() as nat - 48)) as nat),
            None => None,
        }
    }
}

/// The size that a text stands for: decimal digits, with or without a plus
/// sign before them, of a number that a size can hold.
pub open spec fn parsed_size(text: Seq<char>) -> Option<usize> {
    let digits = if text.len() > 0 && text[0] == '+' {
        text.skip(1)
    } else {
        text
    };
    match digits_value(digits) {
        Some(v) => if v <= usize::MAX {
            Some(v as usize)
        } else {
            None
        },
        None => None,
    }
}

/// The lines of context of the diff: what the variable says, or the default
/// where it is not set or is no size.
pub open spec fn context_size_of(var: Option<Seq<char>>) -> usize {
    match var {
        Some(text) => match parsed_size(text) {
            Some(n) => n,
            None => DEFAULT_CONTEXT,
        },
        None => DEFAULT_CONTEXT,
    }
}

/// The size that a text stands for, if it stands for one.
pub fn parse_size(text: &str) -> (size: Option<usize>)
    ensures
        size == parsed_size(text@),
{
    let mut value: Option<usize> = Some(0);
    let ghost mut count: int = 0;
    let mut any = false;
    let mut signed = false;
    let mut first = true;
    let ghost digits = if text@.len() > 0 && text@[0] == '+' {
        text@.skip(1)
    } else {
        text@
    };
    for c in it: text.chars()
        invariant
            it.seq() == text@,
            digits == if text@.len() > 0 && text@[0] == '+' {
                text@.skip(1)
            } else {
                text@
            },
            first == (it.index() == 0),
            signed == (text@.len() > 0 && text@[0] == '+' && it.index() > 0),
            count == it.index() - if signed { 1int } else { 0int },
            0 <= count <= digits.len(),
            any == (count > 0),
            count > 0 ==> digits_value(digits.take(count)) is Some,
            count > 0 ==> (value matches Some(v) ==> digits_value(digits.take(count)) == Some(
                v as nat,
            )),
            count > 0 ==> (value is None ==> digits_value(digits.take(count))->0 > usize::MAX),
            count == 0 ==> value == Some(0usize),
    {
        if first && c == '+' {
            signed = true;
            first = false;
        } else {
            first = false;
            proof {
                assert(digits[count] == c);
                assert(digits.take(count + 1).drop_last() =~= digits.take(count));
                assert(digits.take(count + 1).last() == c);
            }
            if !('0' <= c && c <= '9') {
                proof {
                    lemma_not_digits(digits, count);
                }
                return None;
            }
            let d = (c as u32 - 48) as usize;
            value = match value {
                Some(v) => match v.checked_mul(10) {
                    Some(tens) => tens.checked_add(d),
                    None => None,
                },
                None => None,
            };
            any = true;
            proof {
                count = count + 1;
            }
        }
    }
    assert(digits.take(count) =~= digits);
    if !any {
        None
    } else {
        value
    }
}

/// A text with a character that is no digit stands for no number.
proof fn lemma_not_digits(text: Seq<char>, at: int)
    requires
        0 <= at < text.len(),
        !('0' <= text[at] && text[at] <= '9'),
    ensures
        digits_value(text) is None,
    decreases text.len(),
{
    if at < text.len() - 1 {
        lemma_not_digits(text.drop_last(), at);
    }
}

/// The lines of context of the diff, from the value of the variable that
/// sets them.
pub fn context_size(var: Option<&str>) -> (size: usize)
    ensures
        size == context_size_of(
            match var {
                Some(text) => Some(text@),
                None => None,
            },
        ),
{
    match var {
        Some(text) => match parse_size(text) {
            Some(n) => n,
            None => DEFAULT_CONTEXT,
        },
        None => DEFAULT_CONTEXT,
    }
}

fn push_arg(args: &mut Vec<String>, arg: String)
    ensures
        final(args).deep_view() == old(args).deep_view().push(arg@),
{
    args.push(arg);
    assert(args.deep_view() =~= old(args).deep_view().push(arg@));
}

fn push_word(args: &mut Vec<String>, word: &str)
    ensures
        final(args).deep_view() == old(args).deep_view().push(word@),
{
    push_arg(args, word.to_owned());
}

fn no_args() -> (args: Vec<String>)
    ensures
        args.deep_view() == Seq::<Seq<char>>::empty(),
{
    let args: Vec<String> = Vec::new();
    assert(args.deep_view() =~= Seq::<Seq<char>>::empty());
    args
}

/// The arguments that begin the interactive rebase on a commit.
pub open spec fn rebase_args_of(commit: Seq<char>) -> Seq<Seq<char>> {
    seq!["rebase"@, "-i"@, commit]
}

/// The arguments that ask for the diff of a commit against its parent, as a
/// patch with so many lines of context.
pub open spec fn diff_args_of(commit: Seq<char>, context: usize) -> Seq<Seq<char>> {
    seq!["diff"@, "-p"@, "-U"@ + decimal(context as nat), commit + "~"@, commit]
}

/// The arguments that ask for the message of a commit.
pub open spec fn message_args_of(commit: Seq<char>) -> Seq<Seq<char>> {
    seq!["log"@, "--reverse"@, "--pretty=format:%B"@, commit + "~.."@ + commit]
}

/// The arguments that revert a commit without committing.
pub open spec fn revert_args_of(commit: Seq<char>) -> Seq<Seq<char>> {
    seq!["revert"@, "--no-commit"@, commit]
}

/// The message of the commit that holds the revert.
pub open spec fn revert_message_of(commit: Seq<char>, original: Seq<char>) -> Seq<char> {
    "@split Revert "@ + commit + ": "@ + original
}

/// The arguments that commit what is staged under a message.
pub open spec fn commit_args_of(message: Seq<char>) -> Seq<Seq<char>> {
    seq!["commit"@, "-m"@, message]
}

/// The arguments that apply a patch from the standard input and leave what
/// does not apply as rejects. A diff without context is said to be one.
pub open spec fn apply_args_of(context: usize) -> Seq<Seq<char>> {
    if context == 0 {
        seq!["apply"@, "--reject"@, "--unidiff-zero"@]
    } else {
        seq!["apply"@, "--reject"@]
    }
}

/// The arguments that stage a path.
pub open spec fn stage_args_of(path: Seq<char>) -> Seq<Seq<char>> {
    seq!["add"@, path]
}

/// The arguments that stage what is modified in files that are tracked.
pub open spec fn stage_modified_args_of() -> Seq<Seq<char>> {
    seq!["add"@, "-u"@]
}

/// The arguments that check that the working tree is that of a commit.
pub open spec fn clean_check_args_of(commit: Seq<char>) -> Seq<Seq<char>> {
    seq!["diff"@, "--quiet"@, commit]
}

/// The arguments that give up the rebase.
pub open spec fn abort_args_of() -> Seq<Seq<char>> {
    seq!["rebase"@, "--abort"@]
}

/// The arguments that begin the interactive rebase on a commit.
pub fn rebase_args(commit: &str) -> (args: Vec<String>)
    ensures
        args.deep_view() == rebase_args_of(commit@),
{
    let mut args = no_args();
    push_word(&mut args, "rebase");
    push_word(&mut args, "-i");
    push_word(&mut args, commit);
    assert(args.deep_view() =~= rebase_args_of(commit@));
    args
}

/// The arguments that ask for the diff of a commit against its parent.
pub fn diff_args(commit: &str, context: usize) -> (args: Vec<String>)
    ensures
        args.deep_view() == diff_args_of(commit@, context),
{
    let mut lines = "-U".to_owned();
    push_decimal(&mut lines, context as u64);
    let mut parent = commit.to_owned();
    parent.append("~");
    let mut args = no_args();
    push_word(&mut args, "diff");
    push_word(&mut args, "-p");
    push_arg(&mut args, lines);
    push_arg(&mut args, parent);
    push_word(&mut args, commit);
    assert(args.deep_view() =~= diff_args_of(commit@, context));
    args
}

/// The arguments that ask for the message of a commit.
pub fn message_args(commit: &str) -> (args: Vec<String>)
    ensures
        args.deep_view() == message_args_of(commit@),
{
    let mut range = commit.to_owned();
    range.append("~..");
    range.append(commit);
    let mut args = no_args();
    push_word(&mut args, "log");
    push_word(&mut args, "--reverse");
    push_word(&mut args, "--pretty=format:%B");
    push_arg(&mut args, range);
    assert(args.deep_view() =~= message_args_of(commit@));
    args
}

/// The arguments that revert a commit without committing.
pub fn revert_args(commit: &str) -> (args: Vec<String>)
    ensures
        args.deep_view() == revert_args_of(commit@),
{
    let mut args = no_args();
    push_word(&mut args, "revert");
    push_word(&mut args, "--no-commit");
    push_word(&mut args, commit);
    assert(args.deep_view() =~= revert_args_of(commit@));
    args
}

/// The message of the commit that holds the revert.
pub fn revert_message(commit: &str, original: &str) -> (message: String)
    ensures
        message@ == revert_message_of(commit@, original@),
{
    let mut message = "@split Revert ".to_owned();
    message.append(commit);
    message.append(": ");
    message.append(original);
    message
}

/// The arguments that commit what is staged under a message.
pub fn commit_args(message: &str) -> (args: Vec<String>)
    ensures
        args.deep_view() == commit_args_of(message@),
{
    let mut args = no_args();
    push_word(&mut args, "commit");
    push_word(&mut args, "-m");
    push_word(&mut args, message);
    assert(args.deep_view() =~= commit_args_of(message@));
    args
}

/// The arguments that apply a patch and leave what does not apply as rejects.
pub fn apply_args(context: usize) -> (args: Vec<String>)
    ensures
        args.deep_view() == apply_args_of(context),
{
    let mut args = no_args();
    push_word(&mut args, "apply");
    push_word(&mut args, "--reject");
    if context == 0 {
        push_word(&mut args, "--unidiff-zero");
    }
    assert(args.deep_view() =~= apply_args_of(context));
    args
}

/// The arguments that stage a path.
pub fn stage_args(path: &str) -> (args: Vec<String>)
    ensures
        args.deep_view() == stage_args_of(path@),
{
    let mut args = no_args();
    push_word(&mut args, "add");
    push_word(&mut args, path);
    assert(args.deep_view() =~= stage_args_of(path@));
    args
}

/// The arguments that stage what is modified in files that are tracked.
pub fn stage_modified_args() -> (args: Vec<String>)
    ensures
        args.deep_view() == stage_modified_args_of(),
{
    let mut args = no_args();
    push_word(&mut args, "add");
    push_word(&mut args, "-u");
    assert(args.deep_view() =~= stage_modified_args_of());
    args
}

/// The arguments that check that the working tree is that of a commit.
pub fn clean_check_args(commit: &str) -> (args: Vec<String>)
    ensures
        args.deep_view() == clean_check_args_of(commit@),
{
    let mut args = no_args();
    push_word(&mut args, "diff");
    push_word(&mut args, "--quiet");
    push_word(&mut args, commit);
    assert(args.deep_view() =~= clean_check_args_of(commit@));
    args
}

/// The arguments that give up the rebase.
pub fn abort_args() -> (args: Vec<String>)
    ensures
        args.deep_view() == abort_args_of(),
{
    let mut args = no_args();
    push_word(&mut args, "rebase");
    push_word(&mut args, "--abort");
    assert(args.deep_view() =~= abort_args_of());
    args
}

} // verus!
