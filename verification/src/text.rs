use vstd::prelude::*;

verus! {

/// The lines of a text: the pieces between its line feeds, so that a text
/// with `n` line feeds has `n + 1` lines, some of which may be empty.
pub open spec fn split_lines(s: Seq<char>) -> Seq<Seq<char>>
    decreases s.len(),
{
    if s.len() == 0 {
        seq![Seq::<char>::empty()]
    } else {
        let init = split_lines(s.drop_last());
        if s.last() == '\n' {
            init.push(Seq::<char>::empty())
        } else {
            init.update(init.len() - 1, init.last().push(s.last()))
        }
    }
}

/// The lines joined by line feeds.
pub open spec fn join_lines(lines: Seq<Seq<char>>) -> Seq<char>
    decreases lines.len(),
{
    if lines.len() == 0 {
        Seq::empty()
    } else if lines.len() == 1 {
        lines[0]
    } else {
        join_lines(lines.drop_last()) + seq!['\n'] + lines.last()
    }
}

/// Whether a text holds no line feed.
pub open spec fn one_line(text: Seq<char>) -> bool {
    forall|i: int| 0 <= i < text.len() ==> text[i] != '\n'
}

/// A text has at least one line, no line holds a line feed, and the lines
/// joined by line feeds are the text.
pub proof fn lemma_split_lines(text: Seq<char>)
    ensures
        split_lines(text).len() >= 1,
        forall|i: int| 0 <= i < split_lines(text).len() ==> one_line(#[trigger] split_lines(text)[i]),
        join_lines(split_lines(text)) == text,
    decreases text.len(),
{
    let lines = split_lines(text);
    if text.len() > 0 {
        let init = split_lines(text.drop_last());
        lemma_split_lines(text.drop_last());
        if text.last() == '\n' {
            assert(lines.drop_last() =~= init);
            assert(join_lines(lines) =~= text);
        } else {
            assert forall|i: int| 0 <= i < lines.len() implies one_line(#[trigger] lines[i]) by {
                if i < init.len() - 1 {
                    assert(lines[i] == init[i]);
                } else {
                    assert(one_line(init[i]));
                }
            }
            assert(lines.last() == init.last().push(text.last()));
            assert(text =~= text.drop_last().push(text.last()));
            if init.len() > 1 {
                assert(lines.drop_last() =~= init.drop_last());
                assert(join_lines(lines) =~= join_lines(init).push(text.last()));
            } else {
                assert(join_lines(lines) =~= join_lines(init).push(text.last()));
            }
        }
    } else {
        assert(join_lines(lines) =~= text);
    }
}

/// The lines of a text are the only way to cut it into lines: lines that
/// hold no line feed are the lines of what they are joined to.
pub proof fn lemma_split_of_join(lines: Seq<Seq<char>>)
    requires
        lines.len() >= 1,
        forall|i: int| 0 <= i < lines.len() ==> one_line(#[trigger] lines[i]),
    ensures
        split_lines(join_lines(lines)) == lines,
    decreases lines.len(),
{
    if lines.len() == 1 {
        lemma_split_one_line(Seq::empty(), lines[0]);
        assert(Seq::<char>::empty() + lines[0] =~= lines[0]);
        assert(seq![Seq::<char>::empty()].update(0, lines[0]) =~= lines);
        assert(Seq::<char>::empty() + lines[0] =~= join_lines(lines));
    } else {
        let init = lines.drop_last();
        assert forall|i: int| 0 <= i < init.len() implies one_line(#[trigger] init[i]) by {
            assert(init[i] == lines[i]);
        }
        lemma_split_of_join(init);
        let head = join_lines(init) + seq!['\n'];
        assert(head.drop_last() =~= join_lines(init));
        assert(split_lines(head) == init.push(Seq::<char>::empty()));
        lemma_split_one_line(head, lines.last());
        assert(init.push(Seq::<char>::empty()).update(init.len() as int, lines.last()) =~= lines);
        assert(Seq::<char>::empty() + lines.last() =~= lines.last());
    }
}

/// More of the last line: a text that goes on without a line feed has the
/// lines that it had, the last of them longer.
proof fn lemma_split_one_line(head: Seq<char>, more: Seq<char>)
    requires
        one_line(more),
    ensures
        split_lines(head + more) == split_lines(head).update(
            split_lines(head).len() - 1,
            split_lines(head).last() + more,
        ),
    decreases more.len(),
{
    let lines = split_lines(head);
    lemma_split_lines(head);
    if more.len() == 0 {
        assert(head + more =~= head);
        assert(lines.last() + more =~= lines.last());
        assert(lines.update(lines.len() - 1, lines.last()) =~= lines);
    } else {
        let shorter = more.drop_last();
        assert(one_line(shorter)) by {
            assert forall|i: int| 0 <= i < shorter.len() implies shorter[i] != '\n' by {
                assert(shorter[i] == more[i]);
            }
        }
        lemma_split_one_line(head, shorter);
        assert((head + more).drop_last() =~= head + shorter);
        assert((head + more).last() == more.last());
        assert(more[more.len() - 1] != '\n');
        let before = split_lines(head + shorter);
        assert(before.last().push(more.last()) =~= lines.last() + more);
        assert(before.update(before.len() - 1, lines.last() + more) =~= lines.update(
            lines.len() - 1,
            lines.last() + more,
        ));
    }
}

/// Appends one character to a string, by `String::push`: the string's view
/// grows by exactly that character.
#[verifier::external_body]
pub(crate) fn push_char(s: &mut String, c: char)
    ensures
        final(s)@ == old(s)@.push(c),
{
    s.push(c)
}

/// Splits a text into its lines.
pub fn lines(raw: &str) -> (out: Vec<String>)
    ensures
        out.deep_view() == split_lines(raw@),
{
    let mut out: Vec<String> = Vec::new();
    let mut cur = String::new();
    for c in it: raw.chars()
        invariant
            it.seq() == raw@,
            split_lines(raw@.take(it.index() as int)).len() == out@.len() + 1,
            split_lines(raw@.take(it.index() as int)).last() == cur@,
            forall|i: int| 0 <= i < out@.len() ==> #[trigger] out@[i]@ == split_lines(raw@.take(it.index() as int))[i],
    {
        assert(raw@.take(it.index() + 1).drop_last() == raw@.take(it.index() as int));
        if c == '\n' {
            out.push(cur);
            cur = String::new();
        } else {
            push_char(&mut cur, c);
        }
    }
    assert(raw@.take(raw@.len() as int) == raw@);
    out.push(cur);
    assert(out.deep_view() =~= split_lines(raw@));
    out
}

/// Whether a character has Unicode's `White_Space` property.
pub uninterp spec fn is_white_space(c: char) -> bool;

/// `char::is_whitespace` tells whether a character has the `White_Space`
/// property of the Unicode character database.
pub assume_specification[ char::is_whitespace ](c: char) -> (b: bool)
    ensures
        b == is_white_space(c),
;

/// A text is blank when it holds nothing but white space.
pub open spec fn blank(text: Seq<char>) -> bool {
    forall|i: int| 0 <= i < text.len() ==> is_white_space(#[trigger] text[i])
}

/// Whether the text holds nothing but white space.
pub fn is_blank(text: &str) -> (b: bool)
    ensures
        b == blank(text@),
{
    for c in it: text.chars()
        invariant
            it.seq() == text@,
            blank(text@.take(it.index() as int)),
    {
        if !c.is_whitespace() {
            assert(text@[it.index() as int] == c);
            return false;
        }
        assert forall|i: int| 0 <= i < it.index() + 1 implies is_white_space(
            #[trigger] text@.take(it.index() + 1)[i],
        ) by {
            if i < it.index() {
                assert(text@.take(it.index() as int)[i] == text@[i]);
            }
        }
    }
    assert(text@.take(text@.len() as int) == text@);
    true
}

/// The characters as a string.
pub fn string_of(chars: &Vec<char>) -> (s: String)
    ensures
        s@ == chars@,
{
    let mut s = String::new();
    let mut i: usize = 0;
    while i < chars.len()
        invariant
            i <= chars.len(),
            s@ == chars@.take(i as int),
        decreases chars.len() - i,
    {
        push_char(&mut s, chars[i]);
        assert(chars@.take(i + 1) =~= chars@.take(i as int).push(chars@[i as int]));
        i += 1;
    }
    assert(chars@.take(chars@.len() as int) =~= chars@);
    s
}

/// The characters of a string.
pub fn chars_of(text: &str) -> (chars: Vec<char>)
    ensures
        chars@ == text@,
{
    let mut chars: Vec<char> = Vec::new();
    for c in it: text.chars()
        invariant
            it.seq() == text@,
            chars@ == text@.take(it.index() as int),
    {
        chars.push(c);
        assert(text@.take(it.index() + 1) =~= text@.take(it.index() as int).push(c));
    }
    assert(text@.take(text@.len() as int) =~= text@);
    chars
}

/// The character of a decimal digit.
pub open spec fn digit_char(d: nat) -> char {
    (d + 48) as char
}

/// The decimal numeral of a number: no sign, no leading zero but for zero
/// itself.
pub open spec fn decimal(n: nat) -> Seq<char>
    decreases n,
{
    if n < 10 {
        seq![digit_char(n)]
    } else {
        decimal(n / 10).push(digit_char(n % 10))
    }
}

/// Appends the decimal numeral of `n`.
pub fn push_decimal(out: &mut String, n: u64)
    ensures
        final(out)@ == old(out)@ + decimal(n as nat),
    decreases n,
{
    if n >= 10 {
        push_decimal(out, n / 10);
    }
    let digit = (48u8 + (n % 10) as u8) as char;
    push_char(out, digit);
    assert(out@ =~= old(out)@ + decimal(n as nat));
}

/// The first line of a text: what stands before its first line feed.
pub open spec fn first_line(text: Seq<char>) -> Seq<char> {
    split_lines(text)[0]
}

/// Appends the first line of `text`.
pub fn push_first_line(out: &mut String, text: &str)
    ensures
        final(out)@ == old(out)@ + first_line(text@),
{
    let ghost start = out@;
    let mut open = true;
    assert(text@.take(0) =~= Seq::empty());
    assert(out@ =~= start + first_line(text@.take(0)));
    for c in it: text.chars()
        invariant
            it.seq() == text@,
            out@ == start + first_line(text@.take(it.index() as int)),
            open == (split_lines(text@.take(it.index() as int)).len() == 1),
            split_lines(text@.take(it.index() as int)).len() >= 1,
    {
        proof {
            assert(text@.take(it.index() + 1).drop_last() =~= text@.take(it.index() as int));
            assert(text@.take(it.index() + 1).last() == c);
        }
        if c == '\n' {
            open = false;
        } else if open {
            push_char(out, c);
            assert(out@ =~= start + first_line(text@.take(it.index() + 1)));
        }
    }
    assert(text@.take(text@.len() as int) =~= text@);
}

/// The text with a carriage return put before each line feed.
pub open spec fn with_carriage_returns(text: Seq<char>) -> Seq<char>
    decreases text.len(),
{
    if text.len() == 0 {
        Seq::empty()
    } else if text.last() == '\n' {
        with_carriage_returns(text.drop_last()) + seq!['\r', '\n']
    } else {
        with_carriage_returns(text.drop_last()).push(text.last())
    }
}

/// Puts a carriage return before each line feed.
pub fn add_carriage_returns(text: &str) -> (out: String)
    ensures
        out@ == with_carriage_returns(text@),
{
    let mut out = String::new();
    assert(text@.take(0) =~= Seq::empty());
    for c in it: text.chars()
        invariant
            it.seq() == text@,
            out@ == with_carriage_returns(text@.take(it.index() as int)),
    {
        proof {
            assert(text@.take(it.index() + 1).drop_last() =~= text@.take(it.index() as int));
            assert(text@.take(it.index() + 1).last() == c);
        }
        let ghost before = out@;
        if c == '\n' {
            push_char(&mut out, '\r');
            push_char(&mut out, '\n');
            assert(out@ =~= before + seq!['\r', '\n']);
        } else {
            push_char(&mut out, c);
        }
    }
    assert(text@.take(text@.len() as int) =~= text@);
    out
}

/// Whether the text begins with the prefix.
pub open spec fn starts_with(text: Seq<char>, prefix: Seq<char>) -> bool {
    prefix.len() <= text.len() && text.take(prefix.len() as int) == prefix
}

/// Whether `text` begins with `prefix`.
pub fn has_prefix(text: &Vec<char>, prefix: &Vec<char>) -> (b: bool)
    ensures
        b == starts_with(text@, prefix@),
{
    if prefix.len() > text.len() {
        return false;
    }
    let mut i: usize = 0;
    while i < prefix.len()
        invariant
            i <= prefix.len() <= text.len(),
            forall|k: int| 0 <= k < i ==> text@[k] == prefix@[k],
        decreases prefix.len() - i,
    {
        if text[i] != prefix[i] {
            assert(text@.take(prefix@.len() as int)[i as int] != prefix@[i as int]);
            return false;
        }
        i += 1;
    }
    assert(text@.take(prefix@.len() as int) =~= prefix@);
    true
}

/// The text without the white space at its end.
pub open spec fn trimmed_end(text: Seq<char>) -> Seq<char>
    decreases text.len(),
{
    if text.len() > 0 && is_white_space(text.last()) {
        trimmed_end(text.drop_last())
    } else {
        text
    }
}

/// The characters from `from` on, without the white space at their end.
pub fn trim_end_from(chars: &Vec<char>, from: usize) -> (out: String)
    requires
        from <= chars.len(),
    ensures
        out@ == trimmed_end(chars@.skip(from as int)),
{
    let ghost rest = chars@.skip(from as int);
    let mut end: usize = chars.len();
    assert(chars@.subrange(from as int, end as int) =~= rest);
    while end > from && chars[end - 1].is_whitespace()
        invariant
            from <= end <= chars.len(),
            rest == chars@.skip(from as int),
            trimmed_end(rest) == trimmed_end(chars@.subrange(from as int, end as int)),
        decreases end,
    {
        assert(chars@.subrange(from as int, end as int).drop_last() =~= chars@.subrange(
            from as int,
            end - 1,
        ));
        end -= 1;
    }
    let mut out = String::new();
    let mut i: usize = from;
    while i < end
        invariant
            from <= i <= end <= chars.len(),
            out@ == chars@.subrange(from as int, i as int),
        decreases end - i,
    {
        push_char(&mut out, chars[i]);
        assert(chars@.subrange(from as int, i + 1) =~= chars@.subrange(from as int, i as int).push(
            chars@[i as int],
        ));
        i += 1;
    }
    out
}

/// The text without the white space at its end.
pub fn trim_end(text: &str) -> (out: String)
    ensures
        out@ == trimmed_end(text@),
{
    let chars = chars_of(text);
    assert(chars@.skip(0) =~= chars@);
    trim_end_from(&chars, 0)
}

} // verus!
