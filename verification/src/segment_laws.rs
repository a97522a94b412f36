use vstd::prelude::*;
use crate::pattern::{line_kind, LineKind};
use crate::segment::{
    classified, continued, hunk_total, scan, scan_line, scan_start, sections_of, FileSectionView,
    LineView,
};
use crate::text::{join_lines, lemma_split_lines, split_lines, starts_with};

verus! {

/// How many of the lines are of the given kind.
pub open spec fn count_kind(lines: Seq<LineView>, kind: LineKind) -> nat
    decreases lines.len(),
{
    if lines.len() == 0 {
        0
    } else {
        count_kind(lines.drop_last(), kind) + if lines.last().kind == kind {
            1nat
        } else {
            0nat
        }
    }
}

/// A diff is well formed when it opens with a file boundary and no file
/// boundary is an empty line.
pub open spec fn well_formed(lines: Seq<LineView>) -> bool {
    &&& lines.len() > 0
    &&& lines[0].kind == LineKind::FileStart
    &&& forall|i: int|
        0 <= i < lines.len() && lines[i].kind == LineKind::FileStart ==> (#[trigger] lines[i]).text.len()
            > 0
}

/// The positions of the file boundaries, in order.
pub open spec fn file_starts(lines: Seq<LineView>) -> Seq<int>
    decreases lines.len(),
{
    if lines.len() == 0 {
        Seq::empty()
    } else {
        let before = file_starts(lines.drop_last());
        if lines.last().kind == LineKind::FileStart {
            before.push(lines.len() - 1)
        } else {
            before
        }
    }
}

/// The lines of the `k`-th file: from its boundary up to the next one, or to
/// the end of the diff.
pub open spec fn section_lines(lines: Seq<LineView>, k: int) -> Seq<LineView> {
    let starts = file_starts(lines);
    let end = if k + 1 < starts.len() {
        starts[k + 1]
    } else {
        lines.len() as int
    };
    lines.subrange(starts[k], end)
}

/// The texts of the lines.
pub open spec fn texts(lines: Seq<LineView>) -> Seq<Seq<char>> {
    Seq::new(lines.len(), |i: int| lines[i].text)
}

/// A header followed by hunks, each on lines of its own.
pub open spec fn text_with_hunks(header: Seq<char>, hunks: Seq<Seq<char>>) -> Seq<char>
    decreases hunks.len(),
{
    if hunks.len() == 0 {
        header
    } else {
        continued(text_with_hunks(header, hunks.drop_last()), hunks.last())
    }
}

/// The text of a section: its header and its hunks, each on lines of its own.
pub open spec fn section_text(f: FileSectionView) -> Seq<char> {
    text_with_hunks(f.header, f.hunks)
}

/// The `k`-th closed section is the text of the lines between two file
/// boundaries that follow each other.
spec fn closed_section_is(lines: Seq<LineView>, starts: Seq<int>, k: int, f: FileSectionView) -> bool {
    &&& starts[k] < starts[k + 1]
    &&& section_text(f) == join_lines(texts(lines.subrange(starts[k], starts[k + 1])))
}

/// What holds of the scanner after a well-formed, non-empty run of lines.
spec fn scan_invariant(lines: Seq<LineView>) -> bool {
    let s = scan(lines);
    let starts = file_starts(lines);
    &&& !s.fresh
    &&& s.header.len() > 0
    &&& starts.len() == s.done.len() + 1
    &&& starts.len() == count_kind(lines, LineKind::FileStart)
    &&& hunk_total(s.done) + s.hunks.len() == count_kind(lines, LineKind::HunkStart)
    &&& forall|k: int| 0 <= k < starts.len() ==> 0 <= #[trigger] starts[k] < lines.len()
    &&& forall|k: int|
        0 <= k < s.done.len() ==> closed_section_is(lines, starts, k, #[trigger] s.done[k])
    &&& text_with_hunks(s.header, s.hunks) == join_lines(
        texts(lines.subrange(starts.last(), lines.len() as int)),
    )
}

proof fn lemma_join_one_more(lines: Seq<LineView>, from: int)
    requires
        0 <= from < lines.len() - 1,
    ensures
        join_lines(texts(lines.subrange(from, lines.len() as int))) == continued(
            join_lines(texts(lines.drop_last().subrange(from, lines.len() - 1))),
            lines.last().text,
        ),
{
    let whole = texts(lines.subrange(from, lines.len() as int));
    let shorter = texts(lines.drop_last().subrange(from, lines.len() - 1));
    assert(whole.drop_last() =~= shorter);
    assert(whole.last() == lines.last().text);
}

proof fn lemma_scan_invariant(lines: Seq<LineView>)
    requires
        well_formed(lines),
    ensures
        scan_invariant(lines),
    decreases lines.len(),
{
    let last = lines.last();
    let n = lines.len() as int;
    if lines.len() == 1 {
        assert(lines.drop_last() =~= Seq::empty());
        assert(scan(lines.drop_last()) == scan_start());
        let s = scan(lines);
        assert(s.done =~= Seq::empty());
        assert(file_starts(lines) =~= seq![0int]);
        assert(lines.subrange(0, 1) =~= lines);
        assert(texts(lines) =~= seq![last.text]);
        assert(count_kind(lines.drop_last(), LineKind::FileStart) == 0);
        assert(count_kind(lines.drop_last(), LineKind::HunkStart) == 0);
    } else {
        let shorter = lines.drop_last();
        assert(well_formed(shorter)) by {
            assert forall|i: int|
                0 <= i < shorter.len() && shorter[i].kind
                    == LineKind::FileStart implies (#[trigger] shorter[i]).text.len() > 0 by {
                assert(shorter[i] == lines[i]);
            }
        }
        lemma_scan_invariant(shorter);
        let before = scan(shorter);
        let s = scan(lines);
        let starts0 = file_starts(shorter);
        let starts = file_starts(lines);
        assert(s == scan_line(before, last));
        assert forall|k: int| 0 <= k < before.done.len() implies closed_section_is(
            lines,
            starts0,
            k,
            #[trigger] before.done[k],
        ) by {
            assert(0 <= starts0[k] < shorter.len());
            assert(0 <= starts0[k + 1] < shorter.len());
            assert(closed_section_is(shorter, starts0, k, before.done[k]));
            assert(lines.subrange(starts0[k], starts0[k + 1]) =~= shorter.subrange(
                starts0[k],
                starts0[k + 1],
            ));
        }
        match last.kind {
            LineKind::FileStart => {
                let closed = FileSectionView { header: before.header, hunks: before.hunks };
                assert(s.done == before.done.push(closed));
                assert(s.done.drop_last() =~= before.done);
                assert(lines.subrange(starts0.last(), n - 1) =~= shorter.subrange(
                    starts0.last(),
                    n - 1,
                ));
                assert(texts(lines.subrange(n - 1, n)) =~= seq![last.text]);
                assert(s.hunks.len() == 0);
                assert forall|k: int| 0 <= k < s.done.len() implies closed_section_is(
                    lines,
                    starts,
                    k,
                    #[trigger] s.done[k],
                ) by {
                    if k < before.done.len() {
                        assert(s.done[k] == before.done[k]);
                    } else {
                        assert(0 <= starts0[k] < shorter.len());
                    }
                }
            },
            LineKind::HunkStart => {
                assert(s.hunks.drop_last() =~= before.hunks);
                lemma_join_one_more(lines, starts0.last());
            },
            LineKind::Other => {
                lemma_join_one_more(lines, starts0.last());
                if before.hunks.len() > 0 {
                    let kept = before.hunks.drop_last();
                    assert(s.hunks.drop_last() =~= kept);
                    let head = text_with_hunks(before.header, kept);
                    assert(continued(head, continued(before.hunks.last(), last.text))
                        =~= continued(continued(head, before.hunks.last()), last.text));
                }
            },
        }
    }
}

/// A well-formed diff with `F` file boundaries and `H` hunk boundaries gives
/// `F` sections that hold `H` hunks together.
pub proof fn lemma_segment_counts(lines: Seq<LineView>)
    requires
        well_formed(lines),
    ensures
        sections_of(lines).len() == count_kind(lines, LineKind::FileStart),
        hunk_total(sections_of(lines)) == count_kind(lines, LineKind::HunkStart),
{
    lemma_scan_invariant(lines);
    let s = scan(lines);
    assert(sections_of(lines).drop_last() =~= s.done);
}

/// Each section of a well-formed diff gives back its own lines: its header
/// and hunks, put on lines of their own, are the lines from its file boundary
/// up to the next one, joined by line feeds.
pub proof fn lemma_section_round_trip(lines: Seq<LineView>, k: int)
    requires
        well_formed(lines),
        0 <= k < sections_of(lines).len(),
    ensures
        section_text(sections_of(lines)[k]) == join_lines(texts(section_lines(lines, k))),
{
    lemma_scan_invariant(lines);
    let s = scan(lines);
    if k < s.done.len() {
        assert(sections_of(lines)[k] == s.done[k]);
    }
}

/// Lines classified by the line patterns are well formed as soon as the
/// first of them is a file boundary.
pub proof fn lemma_classified_well_formed(lines: Seq<Seq<char>>)
    requires
        lines.len() > 0,
        line_kind(lines[0]) == LineKind::FileStart,
    ensures
        well_formed(classified(lines)),
{
}

/// The texts of the sections.
pub open spec fn section_texts(files: Seq<FileSectionView>) -> Seq<Seq<char>> {
    Seq::new(files.len(), |k: int| section_text(files[k]))
}

proof fn lemma_whole_text(lines: Seq<LineView>)
    requires
        well_formed(lines),
    ensures
        join_lines(section_texts(sections_of(lines))) == join_lines(texts(lines)),
    decreases lines.len(),
{
    lemma_scan_invariant(lines);
    let last = lines.last();
    let s = scan(lines);
    let closed = FileSectionView { header: s.header, hunks: s.hunks };
    let all = section_texts(sections_of(lines));
    assert(sections_of(lines) == s.done.push(closed));
    assert(all.drop_last() =~= section_texts(s.done));
    assert(all.last() == section_text(closed));
    assert(texts(lines).drop_last() =~= texts(lines.drop_last()));
    if lines.len() == 1 {
        assert(s.done.len() == 0);
        assert(texts(lines) =~= seq![last.text]);
        assert(lines.subrange(0, 1) =~= lines);
        assert(file_starts(lines) =~= seq![0int]);
    } else {
        let shorter = lines.drop_last();
        assert(well_formed(shorter)) by {
            assert forall|i: int|
                0 <= i < shorter.len() && shorter[i].kind
                    == LineKind::FileStart implies (#[trigger] shorter[i]).text.len() > 0 by {
                assert(shorter[i] == lines[i]);
            }
        }
        lemma_whole_text(shorter);
        lemma_scan_invariant(shorter);
        let before = scan(shorter);
        let open = FileSectionView { header: before.header, hunks: before.hunks };
        let earlier = section_texts(sections_of(shorter));
        assert(sections_of(shorter) == before.done.push(open));
        assert(earlier.drop_last() =~= section_texts(before.done));
        assert(earlier.last() == section_text(open));
        assert(s == scan_line(before, last));
        match last.kind {
            LineKind::FileStart => {
                assert(s.done == before.done.push(open));
                assert(all.drop_last() =~= earlier);
            },
            LineKind::HunkStart => {
                assert(s.hunks.drop_last() =~= before.hunks);
                assert(section_text(closed) == continued(section_text(open), last.text));
                lemma_join_continued(earlier, all, last.text);
            },
            LineKind::Other => {
                if before.hunks.len() > 0 {
                    let kept = before.hunks.drop_last();
                    assert(s.hunks.drop_last() =~= kept);
                    let head = text_with_hunks(before.header, kept);
                    assert(continued(head, continued(before.hunks.last(), last.text))
                        =~= continued(continued(head, before.hunks.last()), last.text));
                }
                assert(section_text(closed) == continued(section_text(open), last.text));
                lemma_join_continued(earlier, all, last.text);
            },
        }
    }
}

/// Where the last of some texts goes on by a line, so does what they are
/// joined to.
proof fn lemma_join_continued(before: Seq<Seq<char>>, after: Seq<Seq<char>>, line: Seq<char>)
    requires
        before.len() > 0,
        after.len() == before.len(),
        after.drop_last() == before.drop_last(),
        after.last() == continued(before.last(), line),
    ensures
        join_lines(after) == continued(join_lines(before), line),
{
    if before.len() > 1 {
        assert(join_lines(after) =~= continued(join_lines(before), line));
    }
}

/// Segmenting loses nothing: the sections of a diff that opens with a file
/// boundary, each written out as its header and its hunks on lines of their
/// own, and joined by line feeds, are the diff.
pub proof fn lemma_segment_round_trip(raw: Seq<char>)
    requires
        line_kind(split_lines(raw)[0]) == LineKind::FileStart,
    ensures
        join_lines(section_texts(sections_of(classified(split_lines(raw))))) == raw,
{
    let lines = split_lines(raw);
    lemma_split_lines(raw);
    lemma_classified_well_formed(lines);
    lemma_whole_text(classified(lines));
    assert(texts(classified(lines)) =~= lines);
}

/// Whether the text opens with the line of some hunk boundary.
pub open spec fn opens_with_a_hunk_boundary(lines: Seq<LineView>, text: Seq<char>) -> bool {
    exists|i: int|
        0 <= i < lines.len() && (#[trigger] lines[i]).kind == LineKind::HunkStart && starts_with(
            text,
            lines[i].text,
        )
}

/// Whether each hunk opens with the line of some hunk boundary.
pub open spec fn hunks_open_with_boundaries(lines: Seq<LineView>, hunks: Seq<Seq<char>>) -> bool {
    forall|j: int| 0 <= j < hunks.len() ==> opens_with_a_hunk_boundary(lines, #[trigger] hunks[j])
}

/// What holds of how the sections of the scanner open.
spec fn scan_opens(lines: Seq<LineView>) -> bool {
    let s = scan(lines);
    let starts = file_starts(lines);
    &&& forall|k: int|
        0 <= k < starts.len() ==> 0 <= #[trigger] starts[k] < lines.len() && lines[starts[k]].kind
            == LineKind::FileStart
    &&& forall|k: int|
        0 <= k < s.done.len() ==> closed_section_opens(lines, starts, k, #[trigger] s.done[k])
    &&& starts_with(s.header, lines[starts.last()].text)
    &&& hunks_open_with_boundaries(lines, s.hunks)
}

spec fn closed_section_opens(lines: Seq<LineView>, starts: Seq<int>, k: int, f: FileSectionView) -> bool {
    &&& starts_with(f.header, lines[starts[k]].text)
    &&& hunks_open_with_boundaries(lines, f.hunks)
}

proof fn lemma_continued_opens_alike(text: Seq<char>, line: Seq<char>, prefix: Seq<char>)
    requires
        starts_with(text, prefix),
    ensures
        starts_with(continued(text, line), prefix),
{
    assert(continued(text, line).take(prefix.len() as int) =~= text.take(prefix.len() as int));
}

proof fn lemma_hunks_open_in_more_lines(lines: Seq<LineView>, hunks: Seq<Seq<char>>)
    requires
        lines.len() > 0,
        hunks_open_with_boundaries(lines.drop_last(), hunks),
    ensures
        hunks_open_with_boundaries(lines, hunks),
{
    let shorter = lines.drop_last();
    assert forall|j: int| 0 <= j < hunks.len() implies opens_with_a_hunk_boundary(
        lines,
        #[trigger] hunks[j],
    ) by {
        assert(opens_with_a_hunk_boundary(shorter, hunks[j]));
        let i = choose|i: int|
            0 <= i < shorter.len() && (#[trigger] shorter[i]).kind == LineKind::HunkStart
                && starts_with(hunks[j], shorter[i].text);
        assert(lines[i] == shorter[i]);
    }
}

proof fn lemma_scan_opens(lines: Seq<LineView>)
    requires
        well_formed(lines),
    ensures
        scan_opens(lines),
    decreases lines.len(),
{
    lemma_scan_invariant(lines);
    let last = lines.last();
    let n = lines.len() as int;
    let s = scan(lines);
    let starts = file_starts(lines);
    assert(lines[n - 1] == last);
    assert(last.text.take(last.text.len() as int) =~= last.text);
    if lines.len() == 1 {
        assert(lines.drop_last() =~= Seq::<LineView>::empty());
        assert(scan(lines.drop_last()) == scan_start());
        assert(file_starts(lines) =~= seq![0int]);
        assert(s.done =~= Seq::<FileSectionView>::empty());
    } else {
        let shorter = lines.drop_last();
        assert(well_formed(shorter)) by {
            assert forall|i: int|
                0 <= i < shorter.len() && shorter[i].kind
                    == LineKind::FileStart implies (#[trigger] shorter[i]).text.len() > 0 by {
                assert(shorter[i] == lines[i]);
            }
        }
        lemma_scan_opens(shorter);
        lemma_scan_invariant(shorter);
        let before = scan(shorter);
        let starts0 = file_starts(shorter);
        assert(s == scan_line(before, last));
        lemma_hunks_open_in_more_lines(lines, before.hunks);
        assert forall|k: int| 0 <= k < starts0.len() implies 0 <= #[trigger] starts0[k] < n
            && lines[starts0[k]].kind == LineKind::FileStart by {
            assert(lines[starts0[k]] == shorter[starts0[k]]);
        }
        assert forall|k: int| 0 <= k < before.done.len() implies closed_section_opens(
            lines,
            starts0,
            k,
            #[trigger] before.done[k],
        ) by {
            assert(closed_section_opens(shorter, starts0, k, before.done[k]));
            assert(0 <= starts0[k] < shorter.len());
            assert(lines[starts0[k]] == shorter[starts0[k]]);
            lemma_hunks_open_in_more_lines(lines, before.done[k].hunks);
        }
        assert(0 <= starts0[starts0.len() - 1] < shorter.len());
        assert(lines[starts0.last()] == shorter[starts0.last()]);
        match last.kind {
            LineKind::FileStart => {
                let closed = FileSectionView { header: before.header, hunks: before.hunks };
                assert(s.done == before.done.push(closed));
                assert(starts == starts0.push(n - 1));
                assert forall|k: int| 0 <= k < starts.len() implies 0 <= #[trigger] starts[k] < n
                    && lines[starts[k]].kind == LineKind::FileStart by {
                    if k < starts0.len() {
                        assert(starts[k] == starts0[k]);
                    }
                }
                assert forall|k: int| 0 <= k < s.done.len() implies closed_section_opens(
                    lines,
                    starts,
                    k,
                    #[trigger] s.done[k],
                ) by {
                    assert(starts[k] == starts0[k]);
                    if k < before.done.len() {
                        assert(s.done[k] == before.done[k]);
                    }
                }
            },
            LineKind::HunkStart => {
                assert forall|j: int| 0 <= j < s.hunks.len() implies opens_with_a_hunk_boundary(
                    lines,
                    #[trigger] s.hunks[j],
                ) by {
                    if j < before.hunks.len() {
                        assert(s.hunks[j] == before.hunks[j]);
                    }
                }
            },
            LineKind::Other => {
                if before.hunks.len() > 0 {
                    assert forall|j: int|
                        0 <= j < s.hunks.len() implies opens_with_a_hunk_boundary(
                        lines,
                        #[trigger] s.hunks[j],
                    ) by {
                        if j < before.hunks.len() - 1 {
                            assert(s.hunks[j] == before.hunks[j]);
                        } else {
                            let open = before.hunks[j];
                            assert(opens_with_a_hunk_boundary(lines, open));
                            let i = choose|i: int|
                                0 <= i < lines.len() && (#[trigger] lines[i]).kind
                                    == LineKind::HunkStart && starts_with(open, lines[i].text);
                            lemma_continued_opens_alike(open, last.text, lines[i].text);
                        }
                    }
                } else {
                    lemma_continued_opens_alike(
                        before.header,
                        last.text,
                        lines[starts0.last()].text,
                    );
                }
            },
        }
    }
}

/// Every section of a well-formed diff opens with its file boundary, and
/// every hunk with a hunk boundary: the header of the `k`-th section begins
/// with the line of the `k`-th file boundary, and each of its hunks begins
/// with the line of a hunk boundary.
pub proof fn lemma_sections_open_with_boundaries(lines: Seq<LineView>, k: int)
    requires
        well_formed(lines),
        0 <= k < sections_of(lines).len(),
    ensures
        0 <= file_starts(lines)[k] < lines.len(),
        lines[file_starts(lines)[k]].kind == LineKind::FileStart,
        starts_with(sections_of(lines)[k].header, lines[file_starts(lines)[k]].text),
        hunks_open_with_boundaries(lines, sections_of(lines)[k].hunks),
{
    lemma_scan_invariant(lines);
    lemma_scan_opens(lines);
    let s = scan(lines);
    let starts = file_starts(lines);
    assert(0 <= starts[k] < lines.len());
    if k < s.done.len() {
        assert(sections_of(lines)[k] == s.done[k]);
        assert(closed_section_opens(lines, starts, k, s.done[k]));
    }
}

} // verus!
