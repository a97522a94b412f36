use vstd::prelude::*;
use vstd::bytes::{
    spec_u16_to_le_bytes, spec_u32_to_le_bytes, spec_u64_to_le_bytes, u16_to_le_bytes,
    u32_to_le_bytes, u64_to_le_bytes,
};
use crate::hash::{default_seed, meow_hash, meow_hash_of};
use crate::segment::{FileSection, FileSectionView};
use crate::state::{id_at, CommitId, UiMode, UiModeView, UiState, UiStateView};

verus! {

/// The encodings of the items, one after the other.
pub open spec fn enc_seq<T>(items: Seq<T>, enc: spec_fn(T) -> Seq<u8>) -> Seq<u8>
    decreases items.len(),
{
    if items.len() == 0 {
        Seq::empty()
    } else {
        enc_seq(items.drop_last(), enc) + enc(items.last())
    }
}

/// A truth value, in one byte.
pub open spec fn enc_bool(b: bool) -> Seq<u8> {
    seq![if b { 1u8 } else { 0u8 }]
}

/// A count or an index, in eight bytes.
pub open spec fn enc_len(n: nat) -> Seq<u8> {
    spec_u64_to_le_bytes(n as u64)
}

/// A character, in four bytes.
pub open spec fn enc_char(c: char) -> Seq<u8> {
    spec_u32_to_le_bytes(c as u32)
}

/// A text: the number of its characters, then the characters.
pub open spec fn enc_text(text: Seq<char>) -> Seq<u8> {
    enc_len(text.len()) + enc_seq(text, |c: char| enc_char(c))
}

/// A file section: its header, the number of its hunks, and the hunks.
pub open spec fn enc_file(file: FileSectionView) -> Seq<u8> {
    enc_text(file.header) + enc_len(file.hunks.len()) + enc_seq(
        file.hunks,
        |hunk: Seq<char>| enc_text(hunk),
    )
}

/// The commit of a hunk, or that it has none.
pub open spec fn enc_slot(slot: Option<CommitId>) -> Seq<u8> {
    match slot {
        Some(c) => seq![1u8] + enc_char(c),
        None => seq![0u8],
    }
}

/// A mode: a byte that tells which it is, then what it holds.
pub open spec fn enc_mode(mode: UiModeView) -> Seq<u8> {
    match mode {
        UiModeView::Editing { commit, message, assign_to_hunk } => seq![0u8] + enc_char(commit)
            + enc_text(message) + match assign_to_hunk {
            Some(hunk) => seq![1u8] + enc_len(hunk as nat),
            None => seq![0u8],
        },
        UiModeView::Viewing { active_hunk } => seq![1u8] + enc_len(active_hunk as nat),
        UiModeView::WaitingToEdit => seq![2u8],
    }
}

/// A message, or that there is none.
pub open spec fn enc_message(message: Option<Seq<char>>) -> Seq<u8> {
    match message {
        Some(text) => seq![1u8] + enc_text(text),
        None => seq![0u8],
    }
}

/// The messages of the ten commit ids in the order of the ids, each the
/// message of its commit if the commit has one.
pub open spec fn message_slots(messages: Map<CommitId, Seq<char>>) -> Seq<Option<Seq<char>>> {
    Seq::new(
        10,
        |slot: int|
            if messages.dom().contains(id_at(slot)) {
                Some(messages[id_at(slot)])
            } else {
                None
            },
    )
}

/// The bytes that stand for a state: every field in turn, each text and each
/// sequence led by its length.
pub open spec fn state_bytes(s: UiStateView) -> Seq<u8> {
    enc_bool(s.dont_save) + enc_len(s.files.len()) + enc_seq(
        s.files,
        |file: FileSectionView| enc_file(file),
    ) + spec_u64_to_le_bytes(s.force_redraw_gen) + spec_u16_to_le_bytes(
        s.force_redraw_terminal_size.0,
    ) + spec_u16_to_le_bytes(s.force_redraw_terminal_size.1) + enc_bool(s.allow_partial)
        + enc_mode(s.active_mode) + enc_len(s.previous_modes.len()) + enc_seq(
        s.previous_modes,
        |mode: UiModeView| enc_mode(mode),
    ) + enc_seq(message_slots(s.messages), |message: Option<Seq<char>>| enc_message(message))
        + enc_len(
        s.hunk_commits.len(),
    ) + enc_seq(s.hunk_commits, |slot: Option<CommitId>| enc_slot(slot))
}

/// The fingerprint of a state: the hash of its bytes under the default seed.
pub open spec fn fingerprint_of(s: UiStateView) -> u128 {
    meow_hash_of(default_seed(), state_bytes(s))
}

fn put(buf: &mut Vec<u8>, bytes: Vec<u8>)
    ensures
        final(buf)@ == old(buf)@ + bytes@,
{
    let mut bytes = bytes;
    buf.append(&mut bytes);
}

fn put_bool(buf: &mut Vec<u8>, b: bool)
    ensures
        final(buf)@ == old(buf)@ + enc_bool(b),
{
    buf.push(if b { 1 } else { 0 });
    assert(buf@ =~= old(buf)@ + enc_bool(b));
}

fn put_tag(buf: &mut Vec<u8>, tag: u8)
    ensures
        final(buf)@ == old(buf)@ + seq![tag],
{
    buf.push(tag);
    assert(buf@ =~= old(buf)@ + seq![tag]);
}

fn put_len(buf: &mut Vec<u8>, n: usize)
    ensures
        final(buf)@ == old(buf)@ + enc_len(n as nat),
{
    put(buf, u64_to_le_bytes(n as u64));
}

fn put_char(buf: &mut Vec<u8>, c: char)
    ensures
        final(buf)@ == old(buf)@ + enc_char(c),
{
    put(buf, u32_to_le_bytes(c as u32));
}

fn put_text(buf: &mut Vec<u8>, text: &str)
    ensures
        final(buf)@ == old(buf)@ + enc_text(text@),
{
    let ghost enc = |c: char| enc_char(c);
    put_len(buf, text.unicode_len());
    let ghost start = buf@;
    assert(text@.take(0) =~= Seq::empty());
    assert(buf@ =~= start + enc_seq(text@.take(0), enc));
    for c in it: text.chars()
        invariant
            it.seq() == text@,
            enc == |c: char| enc_char(c),
            buf@ == start + enc_seq(text@.take(it.index() as int), enc),
    {
        put_char(buf, c);
        proof {
            assert(text@.take(it.index() + 1).drop_last() =~= text@.take(it.index() as int));
            assert(text@.take(it.index() + 1).last() == c);
            assert(buf@ =~= start + enc_seq(text@.take(it.index() + 1), enc));
        }
    }
    proof {
        assert(text@.take(text@.len() as int) =~= text@);
        assert(buf@ =~= old(buf)@ + enc_text(text@));
    }
}

fn put_chars(buf: &mut Vec<u8>, text: &Vec<char>)
    ensures
        final(buf)@ == old(buf)@ + enc_text(text@),
{
    let ghost enc = |c: char| enc_char(c);
    put_len(buf, text.len());
    let ghost start = buf@;
    let mut i: usize = 0;
    assert(text@.take(0) =~= Seq::empty());
    assert(buf@ =~= start + enc_seq(text@.take(0), enc));
    while i < text.len()
        invariant
            i <= text.len(),
            enc == |c: char| enc_char(c),
            buf@ == start + enc_seq(text@.take(i as int), enc),
        decreases text.len() - i,
    {
        put_char(buf, text[i]);
        proof {
            assert(text@.take(i + 1).drop_last() =~= text@.take(i as int));
            assert(buf@ =~= start + enc_seq(text@.take(i + 1), enc));
        }
        i += 1;
    }
    proof {
        assert(text@.take(text@.len() as int) =~= text@);
        assert(buf@ =~= old(buf)@ + enc_text(text@));
    }
}

fn put_file(buf: &mut Vec<u8>, file: &FileSection)
    ensures
        final(buf)@ == old(buf)@ + enc_file(file@),
{
    let ghost enc = |hunk: Seq<char>| enc_text(hunk);
    let ghost hunks = file@.hunks;
    put_text(buf, file.header.as_str());
    put_len(buf, file.hunks.len());
    let ghost start = buf@;
    let mut i: usize = 0;
    assert(hunks.take(0) =~= Seq::empty());
    assert(buf@ =~= start + enc_seq(hunks.take(0), enc));
    while i < file.hunks.len()
        invariant
            i <= file.hunks.len(),
            hunks == file@.hunks,
            enc == |hunk: Seq<char>| enc_text(hunk),
            buf@ == start + enc_seq(hunks.take(i as int), enc),
        decreases file.hunks.len() - i,
    {
        put_text(buf, file.hunks[i].body.as_str());
        proof {
            assert(hunks.take(i + 1).drop_last() =~= hunks.take(i as int));
            assert(hunks.take(i + 1).last() == file.hunks[i as int].body@);
            assert(buf@ =~= start + enc_seq(hunks.take(i + 1), enc));
        }
        i += 1;
    }
    proof {
        assert(hunks.take(hunks.len() as int) =~= hunks);
        assert(buf@ =~= old(buf)@ + enc_file(file@));
    }
}

fn put_mode(buf: &mut Vec<u8>, mode: &UiMode)
    ensures
        final(buf)@ == old(buf)@ + enc_mode(mode@),
{
    match mode {
        UiMode::Editing { commit, message, assign_to_hunk } => {
            put_tag(buf, 0);
            put_char(buf, *commit);
            put_chars(buf, message);
            match assign_to_hunk {
                Some(hunk) => {
                    put_tag(buf, 1);
                    put_len(buf, *hunk);
                },
                None => {
                    put_tag(buf, 0);
                },
            }
            assert(buf@ =~= old(buf)@ + enc_mode(mode@));
        },
        UiMode::Viewing { active_hunk } => {
            put_tag(buf, 1);
            put_len(buf, *active_hunk);
            assert(buf@ =~= old(buf)@ + enc_mode(mode@));
        },
        UiMode::WaitingToEdit => {
            put_tag(buf, 2);
        },
    }
}

fn put_slot(buf: &mut Vec<u8>, slot: &Option<CommitId>)
    ensures
        final(buf)@ == old(buf)@ + enc_slot(*slot),
{
    match slot {
        Some(c) => {
            put_tag(buf, 1);
            put_char(buf, *c);
            assert(buf@ =~= old(buf)@ + enc_slot(*slot));
        },
        None => {
            put_tag(buf, 0);
        },
    }
}

impl UiState {
    /// The bytes that stand for the state.
    pub fn encode(&self) -> (bytes: Vec<u8>)
        ensures
            bytes@ == state_bytes(self@),
    {
        let ghost s = self@;
        let ghost enc_f = |file: FileSectionView| enc_file(file);
        let ghost enc_m = |mode: UiModeView| enc_mode(mode);
        let ghost enc_c = |message: Option<Seq<char>>| enc_message(message);
        let ghost enc_s = |slot: Option<CommitId>| enc_slot(slot);
        let mut buf: Vec<u8> = Vec::new();
        put_bool(&mut buf, self.dont_save);
        put_len(&mut buf, self.files.len());
        let ghost start = buf@;
        assert(start =~= enc_bool(s.dont_save) + enc_len(s.files.len()));
        let mut i: usize = 0;
        assert(s.files.take(0) =~= Seq::empty());
        assert(buf@ =~= start + enc_seq(s.files.take(0), enc_f));
        while i < self.files.len()
            invariant
                i <= self.files.len(),
                s == self@,
                enc_f == |file: FileSectionView| enc_file(file),
                buf@ == start + enc_seq(s.files.take(i as int), enc_f),
            decreases self.files.len() - i,
        {
            put_file(&mut buf, &self.files[i]);
            proof {
                assert(s.files.take(i + 1).drop_last() =~= s.files.take(i as int));
                assert(s.files.take(i + 1).last() == self.files[i as int]@);
                assert(buf@ =~= start + enc_seq(s.files.take(i + 1), enc_f));
            }
            i += 1;
        }
        assert(s.files.take(s.files.len() as int) =~= s.files);
        put(&mut buf, u64_to_le_bytes(self.force_redraw_gen));
        put(&mut buf, u16_to_le_bytes(self.force_redraw_terminal_size.0));
        put(&mut buf, u16_to_le_bytes(self.force_redraw_terminal_size.1));
        put_bool(&mut buf, self.allow_partial);
        put_mode(&mut buf, &self.active_mode);
        put_len(&mut buf, self.previous_modes.len());
        let ghost start = buf@;
        assert(start =~= enc_bool(s.dont_save) + enc_len(s.files.len()) + enc_seq(s.files, enc_f)
            + spec_u64_to_le_bytes(s.force_redraw_gen) + spec_u16_to_le_bytes(
            s.force_redraw_terminal_size.0,
        ) + spec_u16_to_le_bytes(s.force_redraw_terminal_size.1) + enc_bool(s.allow_partial)
            + enc_mode(s.active_mode) + enc_len(s.previous_modes.len()));
        let mut i: usize = 0;
        assert(s.previous_modes.take(0) =~= Seq::empty());
        assert(buf@ =~= start + enc_seq(s.previous_modes.take(0), enc_m));
        while i < self.previous_modes.len()
            invariant
                i <= self.previous_modes.len(),
                s == self@,
                enc_m == |mode: UiModeView| enc_mode(mode),
                buf@ == start + enc_seq(s.previous_modes.take(i as int), enc_m),
            decreases self.previous_modes.len() - i,
        {
            put_mode(&mut buf, &self.previous_modes[i]);
            proof {
                assert(s.previous_modes.take(i + 1).drop_last() =~= s.previous_modes.take(i as int));
                assert(s.previous_modes.take(i + 1).last() == self.previous_modes[i as int]@);
                assert(buf@ =~= start + enc_seq(s.previous_modes.take(i + 1), enc_m));
            }
            i += 1;
        }
        assert(s.previous_modes.take(s.previous_modes.len() as int) =~= s.previous_modes);
        let ghost start = buf@;
        let ghost slots = message_slots(s.messages);
        let mut slot: u8 = 0;
        assert(slots.take(0) =~= Seq::empty());
        assert(buf@ =~= start + enc_seq(slots.take(0), enc_c));
        while slot < 10
            invariant
                slot <= 10,
                s == self@,
                slots == message_slots(s.messages),
                enc_c == |message: Option<Seq<char>>| enc_message(message),
                buf@ == start + enc_seq(slots.take(slot as int), enc_c),
            decreases 10 - slot,
        {
            let id = (48u8 + slot) as char;
            proof {
                assert(id == id_at(slot as int));
                assert(slots.take(slot + 1).drop_last() =~= slots.take(slot as int));
                assert(slots.take(slot + 1).last() == slots[slot as int]);
            }
            match self.messages.get(id) {
                Some(info) => {
                    let ghost before = buf@;
                    put_tag(&mut buf, 1);
                    put_text(&mut buf, info.message.as_str());
                    assert(buf@ =~= before + enc_message(slots[slot as int]));
                },
                None => {
                    put_tag(&mut buf, 0);
                },
            }
            assert(buf@ =~= start + enc_seq(slots.take(slot + 1), enc_c));
            slot += 1;
        }
        assert(slots.take(10) =~= slots);
        put_len(&mut buf, self.hunk_commits.len());
        let ghost start = buf@;
        let mut i: usize = 0;
        assert(s.hunk_commits.take(0) =~= Seq::empty());
        assert(buf@ =~= start + enc_seq(s.hunk_commits.take(0), enc_s));
        while i < self.hunk_commits.len()
            invariant
                i <= self.hunk_commits.len(),
                s == self@,
                enc_s == |slot: Option<CommitId>| enc_slot(slot),
                buf@ == start + enc_seq(s.hunk_commits.take(i as int), enc_s),
            decreases self.hunk_commits.len() - i,
        {
            put_slot(&mut buf, &self.hunk_commits[i]);
            proof {
                assert(s.hunk_commits.take(i + 1).drop_last() =~= s.hunk_commits.take(i as int));
                assert(buf@ =~= start + enc_seq(s.hunk_commits.take(i + 1), enc_s));
            }
            i += 1;
        }
        proof {
            assert(s.hunk_commits.take(s.hunk_commits.len() as int) =~= s.hunk_commits);
            assert(buf@ =~= state_bytes(s));
        }
        buf
    }

    /// The fingerprint of the state: the hash of its bytes.
    pub fn fingerprint(&self) -> (hash: u128)
        ensures
            hash == fingerprint_of(self@),
    {
        let bytes = self.encode();
        meow_hash(None, bytes.as_slice())
    }
}

/// Remembers the fingerprint of the state that was drawn last.
#[derive(Clone, Copy, Debug, PartialEq, Eq)]
pub struct RedrawScheduler {
    pub previous: u128,
}

/// Whether a state is to be drawn when `previous` is the fingerprint that
/// was drawn last.
pub open spec fn needs_redraw(previous: u128, s: UiStateView) -> bool {
    previous != fingerprint_of(s)
}

impl RedrawScheduler {
    /// The scheduler of a session in which nothing has been drawn yet.
    pub fn new() -> (scheduler: RedrawScheduler)
        ensures
            scheduler.previous == 0,
    {
        RedrawScheduler { previous: 0 }
    }

    /// Whether the state is to be drawn: whether its fingerprint differs
    /// from the one drawn last. The state's fingerprint is remembered.
    pub fn should_redraw(&mut self, state: &UiState) -> (draw: bool)
        ensures
            draw == needs_redraw(old(self).previous, state@),
            final(self).previous == fingerprint_of(state@),
    {
        let hash = state.fingerprint();
        if hash != self.previous {
            self.previous = hash;
            true
        } else {
            false
        }
    }
}

/// A state that was just looked at is not drawn again: once the scheduler
/// has taken a state's fingerprint, it asks for no drawing as long as the
/// state stays the same.
pub proof fn lemma_unchanged_state_not_redrawn(previous: u128, s: UiStateView)
    ensures
        !needs_redraw(fingerprint_of(s), s),
{
}

} // verus!
