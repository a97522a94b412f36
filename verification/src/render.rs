use vstd::prelude::*;
use crate::state::{
    commit_ids, flat_hunks, lemma_flat_hunks_in_files, lemma_flat_hunks_len, CommitId, UiMode,
    UiModeView, UiState, UiStateView,
};
use crate::term::{
    ansi_fg, clear_all, clear_all_code, cursor_home, cursor_home_code, fg_code, fg_reset,
    fg_reset_code,
};
use crate::text::{
    add_carriage_returns, decimal, first_line, lines, push_char, push_decimal, push_first_line,
    split_lines, string_of, with_carriage_returns,
};

verus! {

/// The colour of added lines.
pub const ADDED: u8 = 2;

/// The colour of removed lines.
pub const REMOVED: u8 = 1;

/// The colour of the note that a part of the hunks is enough.
pub const NOTICE: u8 = 3;

/// A line of a hunk as it is shown: added and removed lines in their
/// colours, any other line as it is.
pub open spec fn shown_line(line: Seq<char>) -> Seq<char> {
    if line.len() > 0 && line[0] == '+' {
        fg_code(ADDED) + line + fg_reset_code()
    } else if line.len() > 0 && line[0] == '-' {
        fg_code(REMOVED) + line + fg_reset_code()
    } else {
        line
    }
}

/// The lines as they are shown, each closed by a line feed.
pub open spec fn shown_lines(lines: Seq<Seq<char>>) -> Seq<char>
    decreases lines.len(),
{
    if lines.len() == 0 {
        Seq::empty()
    } else {
        shown_lines(lines.drop_last()) + shown_line(lines.last()) + seq!['\n']
    }
}

/// How many of `available` lines are shown when at most `max_lines` are.
pub open spec fn lines_shown(available: nat, max_lines: nat) -> nat {
    if max_lines < available {
        max_lines
    } else {
        available
    }
}

/// A hunk as it is shown: its first `max_lines` lines.
pub open spec fn shown_hunk(hunk: Seq<char>, max_lines: nat) -> Seq<char> {
    let all = split_lines(hunk);
    shown_lines(all.take(lines_shown(all.len(), max_lines) as int))
}

/// Appends a hunk as it is shown.
pub fn push_hunk(out: &mut String, hunk: &str, max_lines: usize)
    ensures
        final(out)@ == old(out)@ + shown_hunk(hunk@, max_lines as nat),
{
    let all = lines(hunk);
    let ghost texts = split_lines(hunk@);
    let shown = if max_lines < all.len() {
        max_lines
    } else {
        all.len()
    };
    let ghost start = out@;
    let mut i: usize = 0;
    assert(texts.take(0) =~= Seq::empty());
    assert(out@ =~= start + shown_lines(texts.take(0)));
    while i < shown
        invariant
            i <= shown <= all.len(),
            texts == all.deep_view(),
            out@ == start + shown_lines(texts.take(i as int)),
        decreases shown - i,
    {
        let line = all[i].as_str();
        proof {
            assert(texts.take(i + 1).drop_last() =~= texts.take(i as int));
            assert(texts.take(i + 1).last() == line@);
        }
        let ghost before = out@;
        let color = if line.is_empty() {
            None
        } else if line.get_char(0) == '+' {
            Some(ADDED)
        } else if line.get_char(0) == '-' {
            Some(REMOVED)
        } else {
            None
        };
        match color {
            Some(color) => {
                out.append(ansi_fg(color).as_str());
                out.append(line);
                out.append(fg_reset());
            },
            None => {
                out.append(line);
            },
        }
        push_char(out, '\n');
        assert(out@ =~= before + shown_line(line@) + seq!['\n']);
        i += 1;
    }
}

/// A hunk as it is shown on the screen or in the pager.
pub fn render_hunk(hunk: &str, max_lines: usize) -> (out: String)
    ensures
        out@ == shown_hunk(hunk@, max_lines as nat),
{
    let mut out = String::new();
    push_hunk(&mut out, hunk, max_lines);
    assert(out@ =~= shown_hunk(hunk@, max_lines as nat));
    out
}

/// The colours that commits are told apart by, in the order in which they
/// are given out.
pub open spec fn commit_colors() -> Seq<u8> {
    seq![9u8, 11u8, 12u8, 10u8, 14u8, 13u8, 8u8, 15u8, 4u8, 1u8]
}

/// The commits that have been drawn so far, in the order in which they were
/// first drawn. A commit keeps the colour of its place.
#[derive(Clone, Debug, PartialEq, Eq)]
pub struct Palette {
    pub seen: Vec<CommitId>,
}

/// The place of a commit among those seen: that of its first occurrence, or
/// the place after the last where it does not occur.
pub open spec fn place_among(seen: Seq<CommitId>, id: CommitId) -> int
    decreases seen.len(),
{
    if seen.len() == 0 {
        0
    } else if place_among(seen.drop_last(), id) < seen.len() - 1 {
        place_among(seen.drop_last(), id)
    } else if seen.last() == id {
        seen.len() - 1
    } else {
        seen.len() as int
    }
}

/// The commits seen once `id` has been drawn.
pub open spec fn seen_with(seen: Seq<CommitId>, id: CommitId) -> Seq<CommitId> {
    if place_among(seen, id) < seen.len() {
        seen
    } else {
        seen.push(id)
    }
}

/// The escape sequence of the colour of a commit, empty where the colours
/// have run out.
pub open spec fn commit_color_code(seen: Seq<CommitId>, id: CommitId) -> Seq<char> {
    if place_among(seen, id) < commit_colors().len() {
        fg_code(commit_colors()[place_among(seen, id)])
    } else {
        Seq::empty()
    }
}

fn color_at(place: usize) -> (color: Option<u8>)
    ensures
        color is Some <==> place < commit_colors().len(),
        color matches Some(c) ==> c == commit_colors()[place as int],
{
    if place == 0 {
        Some(9)
    } else if place == 1 {
        Some(11)
    } else if place == 2 {
        Some(12)
    } else if place == 3 {
        Some(10)
    } else if place == 4 {
        Some(14)
    } else if place == 5 {
        Some(13)
    } else if place == 6 {
        Some(8)
    } else if place == 7 {
        Some(15)
    } else if place == 8 {
        Some(4)
    } else if place == 9 {
        Some(1)
    } else {
        None
    }
}

impl Palette {
    /// The palette of a session in which nothing has been drawn yet.
    pub fn new() -> (palette: Palette)
        ensures
            palette.seen@ == Seq::<CommitId>::empty(),
    {
        Palette { seen: Vec::new() }
    }

    /// Appends the escape sequence of the colour of a commit, which from now
    /// on counts as seen.
    pub fn push_color(&mut self, out: &mut String, id: CommitId)
        ensures
            final(out)@ == old(out)@ + commit_color_code(old(self).seen@, id),
            final(self).seen@ == seen_with(old(self).seen@, id),
    {
        let mut place: usize = 0;
        assert(self.seen@.take(0) =~= Seq::empty());
        while place < self.seen.len() && self.seen[place] != id
            invariant
                place <= self.seen.len(),
                place_among(self.seen@.take(place as int), id) == place,
            decreases self.seen.len() - place,
        {
            assert(self.seen@.take(place + 1).drop_last() =~= self.seen@.take(place as int));
            place += 1;
        }
        proof {
            lemma_place_among(self.seen@, place as int, id);
        }
        if place == self.seen.len() {
            self.seen.push(id);
        }
        match color_at(place) {
            Some(color) => {
                let code = ansi_fg(color);
                out.append(code.as_str());
            },
            None => {
                assert(out@ =~= old(out)@ + Seq::<char>::empty());
            },
        }
    }
}

/// A commit's place is the first place at which it stands.
pub proof fn lemma_place_among(seen: Seq<CommitId>, place: int, id: CommitId)
    requires
        0 <= place <= seen.len(),
        place_among(seen.take(place), id) == place,
        place < seen.len() ==> seen[place] == id,
    ensures
        place_among(seen, id) == place,
    decreases seen.len() - place,
{
    if place == seen.len() {
        assert(seen.take(place) =~= seen);
    } else {
        assert(seen.take(place + 1).drop_last() =~= seen.take(place));
        assert(place_among(seen.take(place + 1), id) == place);
        lemma_place_stays(seen, place + 1, id);
    }
}

proof fn lemma_place_stays(seen: Seq<CommitId>, n: int, id: CommitId)
    requires
        0 <= n <= seen.len(),
        place_among(seen.take(n), id) < n,
    ensures
        place_among(seen, id) == place_among(seen.take(n), id),
    decreases seen.len() - n,
{
    if n == seen.len() {
        assert(seen.take(n) =~= seen);
    } else {
        assert(seen.take(n + 1).drop_last() =~= seen.take(n));
        lemma_place_stays(seen, n + 1, id);
    }
}

/// How many of the slots are set.
pub open spec fn assigned_count(slots: Seq<Option<CommitId>>) -> nat
    decreases slots.len(),
{
    if slots.len() == 0 {
        0
    } else {
        assigned_count(slots.drop_last()) + if slots.last() is Some {
            1nat
        } else {
            0nat
        }
    }
}

/// The first line of the screen: how many hunks are assigned, and whether a
/// part of them is enough.
pub open spec fn status_line(s: UiStateView) -> Seq<char> {
    decimal(assigned_count(s.hunk_commits)) + "/"@ + decimal(s.hunk_count()) + " hunks assigned"@
        + if s.allow_partial {
        " "@ + fg_code(NOTICE) + "ALLOW PARTIAL"@ + fg_reset_code()
    } else {
        Seq::empty()
    } + seq!['\n']
}

/// What has been drawn: the text, and the commits seen.
pub struct Drawn {
    pub text: Seq<char>,
    pub seen: Seq<CommitId>,
}

/// The legend's line of a commit, if it has a message: its id and the first
/// line of its message, in its colour.
pub open spec fn legend_line(messages: Map<CommitId, Seq<char>>, drawn: Drawn, id: CommitId) -> Drawn {
    if messages.dom().contains(id) {
        Drawn {
            text: drawn.text + commit_color_code(drawn.seen, id) + seq![id] + ": "@ + first_line(
                messages[id],
            ) + fg_reset_code() + seq!['\n'],
            seen: seen_with(drawn.seen, id),
        }
    } else {
        drawn
    }
}

/// The legend: the lines of the commits in the order of their ids.
pub open spec fn legend(messages: Map<CommitId, Seq<char>>, ids: Seq<CommitId>, drawn: Drawn) -> Drawn
    decreases ids.len(),
{
    if ids.len() == 0 {
        drawn
    } else {
        legend_line(messages, legend(messages, ids.drop_last(), drawn), ids.last())
    }
}

/// How many lines of the viewed hunk fit on the screen under the status
/// line, the legend and the lines about the hunk.
pub open spec fn hunk_lines_that_fit(s: UiStateView) -> nat {
    let taken = s.messages.dom().len() + 5;
    if s.force_redraw_terminal_size.1 > taken {
        (s.force_redraw_terminal_size.1 - taken) as nat
    } else {
        0
    }
}

/// The viewed hunk: its index among the hunks, its commit, the first line
/// of its file's header, and as much of its body as fits.
pub open spec fn viewed_hunk(s: UiStateView, active: usize, drawn: Drawn) -> Drawn {
    let (file, hunk) = flat_hunks(s.files)[active as int];
    let lead = drawn.text + decimal(active as nat) + "/"@ + decimal(s.hunk_count()) + ": "@;
    let tail = fg_reset_code() + seq!['\n'] + first_line(s.files[file].header) + seq!['\n']
        + shown_hunk(s.files[file].hunks[hunk], hunk_lines_that_fit(s)) + seq!['\n'];
    match s.commit_of(active as int) {
        Some(commit) => Drawn {
            text: lead + commit_color_code(drawn.seen, commit) + seq!['[', commit, ']', ' ']
                + first_line(s.messages[commit]) + tail,
            seen: seen_with(drawn.seen, commit),
        },
        None => Drawn { text: lead + "---"@ + tail, seen: drawn.seen },
    }
}

/// What the active mode shows under the legend.
pub open spec fn mode_part(s: UiStateView, drawn: Drawn) -> Drawn {
    match s.active_mode {
        UiModeView::WaitingToEdit => Drawn {
            text: drawn.text + "Enter commit id to edit: "@,
            seen: drawn.seen,
        },
        UiModeView::Editing { commit, message, assign_to_hunk } => Drawn {
            text: drawn.text + "For "@ + commit_color_code(drawn.seen, commit) + seq![commit]
                + fg_reset_code() + seq![':', '\n'] + message,
            seen: seen_with(drawn.seen, commit),
        },
        UiModeView::Viewing { active_hunk } => if active_hunk < s.hunk_count() {
            viewed_hunk(s, active_hunk, drawn)
        } else {
            drawn
        },
    }
}

/// The screen before carriage returns are put in.
pub open spec fn screen(s: UiStateView, seen: Seq<CommitId>) -> Drawn {
    mode_part(
        s,
        legend(
            s.messages,
            commit_ids(),
            Drawn { text: cursor_home_code() + clear_all_code() + status_line(s), seen },
        ),
    )
}

/// A frame: the whole screen as it is written to the terminal, and the
/// commits seen once it is drawn.
pub open spec fn frame(s: UiStateView, seen: Seq<CommitId>) -> Drawn {
    Drawn { text: with_carriage_returns(screen(s, seen).text), seen: screen(s, seen).seen }
}

fn count_assigned(slots: &Vec<Option<CommitId>>) -> (count: usize)
    ensures
        count == assigned_count(slots@),
{
    let mut count: usize = 0;
    let mut i: usize = 0;
    assert(slots@.take(0) =~= Seq::empty());
    while i < slots.len()
        invariant
            i <= slots.len(),
            count <= i,
            count == assigned_count(slots@.take(i as int)),
        decreases slots.len() - i,
    {
        assert(slots@.take(i + 1).drop_last() =~= slots@.take(i as int));
        if slots[i].is_some() {
            count += 1;
        }
        i += 1;
    }
    assert(slots@.take(i as int) =~= slots@);
    count
}

impl UiState {
    fn push_status_line(&self, out: &mut String)
        requires
            self@.wf(),
        ensures
            final(out)@ == old(out)@ + status_line(self@),
    {
        push_decimal(out, count_assigned(&self.hunk_commits) as u64);
        out.append("/");
        push_decimal(out, self.hunk_count() as u64);
        out.append(" hunks assigned");
        if self.allow_partial {
            let color = ansi_fg(NOTICE);
            out.append(" ");
            out.append(color.as_str());
            out.append("ALLOW PARTIAL");
            out.append(fg_reset());
        }
        push_char(out, '\n');
        assert(out@ =~= old(out)@ + status_line(self@));
    }

    fn push_legend(&self, out: &mut String, palette: &mut Palette)
        ensures
            (Drawn { text: final(out)@, seen: final(palette).seen@ }) == legend(
                self@.messages,
                commit_ids(),
                Drawn { text: old(out)@, seen: old(palette).seen@ },
            ),
    {
        let ghost ids = commit_ids();
        let ghost start = Drawn { text: out@, seen: palette.seen@ };
        let mut slot: u8 = 0;
        assert(ids.take(0) =~= Seq::empty());
        while slot < 10
            invariant
                slot <= 10,
                ids == commit_ids(),
                (Drawn { text: out@, seen: palette.seen@ }) == legend(
                    self@.messages,
                    ids.take(slot as int),
                    start,
                ),
            decreases 10 - slot,
        {
            let id = (48u8 + slot) as char;
            proof {
                assert(ids.take(slot + 1).drop_last() =~= ids.take(slot as int));
                assert(ids.take(slot + 1).last() == id);
            }
            let ghost before = Drawn { text: out@, seen: palette.seen@ };
            match self.messages.get(id) {
                Some(info) => {
                    palette.push_color(out, id);
                    push_char(out, id);
                    out.append(": ");
                    push_first_line(out, info.message.as_str());
                    out.append(fg_reset());
                    push_char(out, '\n');
                    assert(out@ =~= legend_line(self@.messages, before, id).text);
                },
                None => {},
            }
            slot += 1;
        }
        assert(ids.take(10) =~= ids);
    }

    fn push_viewed_hunk(&self, out: &mut String, palette: &mut Palette, active: usize)
        requires
            self@.wf(),
            active < self@.hunk_count(),
        ensures
            (Drawn { text: final(out)@, seen: final(palette).seen@ }) == viewed_hunk(
                self@,
                active,
                Drawn { text: old(out)@, seen: old(palette).seen@ },
            ),
    {
        let ghost before = Drawn { text: out@, seen: palette.seen@ };
        let ghost s = self@;
        proof {
            lemma_flat_hunks_len(s.files);
            lemma_flat_hunks_in_files(s.files, active as int);
        }
        let place = self.get_hunk(active).unwrap();
        push_decimal(out, active as u64);
        out.append("/");
        push_decimal(out, self.hunk_count() as u64);
        out.append(": ");
        let ghost lead = out@;
        assert(lead =~= before.text + decimal(active as nat) + "/"@ + decimal(s.hunk_count())
            + ": "@);
        let commit = if active < self.hunk_commits.len() {
            self.hunk_commits[active]
        } else {
            None
        };
        assert(commit == s.commit_of(active as int));
        match commit {
            Some(id) => {
                palette.push_color(out, id);
                push_char(out, '[');
                push_char(out, id);
                push_char(out, ']');
                push_char(out, ' ');
                push_first_line(out, self.messages.get(id).unwrap().message.as_str());
                assert(out@ =~= lead + commit_color_code(before.seen, id) + seq!['[', id, ']', ' ']
                    + first_line(s.messages[id]));
            },
            None => {
                out.append("---");
            },
        }
        let ghost middle = out@;
        let taken = self.messages.len() + 5;
        let height = self.force_redraw_terminal_size.1 as usize;
        let fit = if height > taken {
            height - taken
        } else {
            0
        };
        out.append(fg_reset());
        push_char(out, '\n');
        push_first_line(out, self.files[place.file].header.as_str());
        push_char(out, '\n');
        push_hunk(out, self.files[place.file].hunks[place.hunk].body.as_str(), fit);
        push_char(out, '\n');
        assert(out@ =~= middle + (fg_reset_code() + seq!['\n'] + first_line(
            s.files[place.file as int].header,
        ) + seq!['\n'] + shown_hunk(
            s.files[place.file as int].hunks[place.hunk as int],
            hunk_lines_that_fit(s),
        ) + seq!['\n']));
    }

    fn push_mode_part(&self, out: &mut String, palette: &mut Palette)
        requires
            self@.wf(),
        ensures
            (Drawn { text: final(out)@, seen: final(palette).seen@ }) == mode_part(
                self@,
                Drawn { text: old(out)@, seen: old(palette).seen@ },
            ),
    {
        let ghost before = Drawn { text: out@, seen: palette.seen@ };
        match &self.active_mode {
            UiMode::WaitingToEdit => {
                out.append("Enter commit id to edit: ");
            },
            UiMode::Editing { commit, message, assign_to_hunk } => {
                out.append("For ");
                palette.push_color(out, *commit);
                push_char(out, *commit);
                out.append(fg_reset());
                push_char(out, ':');
                push_char(out, '\n');
                let typed = string_of(message);
                out.append(typed.as_str());
                assert(out@ =~= before.text + "For "@ + commit_color_code(before.seen, *commit)
                    + seq![*commit] + fg_reset_code() + seq![':', '\n'] + message@);
            },
            UiMode::Viewing { active_hunk } => {
                if *active_hunk < self.hunk_count() {
                    self.push_viewed_hunk(out, palette, *active_hunk);
                }
            },
        }
    }

    /// Draws the state: the whole screen as it is to be written to the
    /// terminal. The palette takes note of the commits that are drawn.
    pub fn render_frame(&self, palette: &mut Palette) -> (out: String)
        requires
            self@.wf(),
        ensures
            (Drawn { text: out@, seen: final(palette).seen@ }) == frame(self@, old(palette).seen@),
    {
        let mut draw = cursor_home();
        draw.append(clear_all());
        self.push_status_line(&mut draw);
        assert(draw@ =~= cursor_home_code() + clear_all_code() + status_line(self@));
        self.push_legend(&mut draw, palette);
        self.push_mode_part(&mut draw, palette);
        add_carriage_returns(draw.as_str())
    }
}

/// What the pager is given for a hunk: the header of its file on lines of
/// its own, then the whole hunk as it is shown.
pub open spec fn pager_text_of(s: UiStateView, hunk: int) -> Seq<char> {
    let (f, h) = flat_hunks(s.files)[hunk];
    s.files[f].header + seq!['\n'] + shown_hunk(s.files[f].hunks[h], usize::MAX as nat)
}

impl UiState {
    /// What the pager is to show for a hunk, if there is such a hunk.
    pub fn pager_text(&self, hunk: usize) -> (text: Option<String>)
        ensures
            text is Some <==> hunk < self@.hunk_count(),
            text matches Some(t) ==> t@ == pager_text_of(self@, hunk as int),
    {
        proof {
            lemma_flat_hunks_len(self@.files);
            if hunk < self@.hunk_count() {
                lemma_flat_hunks_in_files(self@.files, hunk as int);
            }
        }
        match self.get_hunk(hunk) {
            Some(place) => {
                let mut text = self.files[place.file].header.clone();
                push_char(&mut text, '\n');
                push_hunk(&mut text, self.files[place.file].hunks[place.hunk].body.as_str(), usize::MAX);
                assert(text@ =~= pager_text_of(self@, hunk as int));
                Some(text)
            },
            None => None,
        }
    }
}

} // verus!
