use vstd::prelude::*;
use vstd::seq_lib::lemma_concat_associative;
use vstd::bytes::{
    lemma_auto_spec_u16_to_from_le_bytes, lemma_auto_spec_u32_to_from_le_bytes,
    lemma_auto_spec_u64_to_from_le_bytes, spec_u16_to_le_bytes, spec_u32_to_le_bytes,
    spec_u64_to_le_bytes,
};
use crate::redraw::{
    enc_bool, enc_char, enc_file, enc_len, enc_message, enc_mode, enc_seq, enc_slot, enc_text,
    message_slots, state_bytes,
};
use crate::segment::FileSectionView;
use crate::state::{id_at, is_commit_id, slot_of, CommitId, UiModeView, UiStateView};

verus! {

/// Whether a count can be written in eight bytes.
pub open spec fn fits(n: nat) -> bool {
    n <= u64::MAX
}

/// Whether the length of a text can be written in eight bytes.
pub open spec fn text_fits(text: Seq<char>) -> bool {
    fits(text.len())
}

/// Whether the counts of a file section can be written in eight bytes.
pub open spec fn file_fits(file: FileSectionView) -> bool {
    &&& text_fits(file.header)
    &&& fits(file.hunks.len())
    &&& forall|i: int| 0 <= i < file.hunks.len() ==> text_fits(#[trigger] file.hunks[i])
}

/// Whether the counts of a mode can be written in eight bytes.
pub open spec fn mode_fits(mode: UiModeView) -> bool {
    mode matches UiModeView::Editing { message, .. } ==> text_fits(message)
}

/// Whether the length of a message, if there is one, can be written in
/// eight bytes.
pub open spec fn message_fits(message: Option<Seq<char>>) -> bool {
    message matches Some(text) ==> text_fits(text)
}

/// Whether every count of a state can be written in eight bytes, as the
/// counts of every state that a machine holds can.
pub open spec fn encodable(s: UiStateView) -> bool {
    &&& fits(s.files.len())
    &&& forall|i: int| 0 <= i < s.files.len() ==> file_fits(#[trigger] s.files[i])
    &&& mode_fits(s.active_mode)
    &&& fits(s.previous_modes.len())
    &&& forall|i: int| 0 <= i < s.previous_modes.len() ==> mode_fits(#[trigger] s.previous_modes[i])
    &&& forall|c: CommitId| s.messages.dom().contains(c) ==> text_fits(#[trigger] s.messages[c])
    &&& fits(s.hunk_commits.len())
}

/// An encoding is self-delimiting when what follows it cannot be taken for a
/// part of it: two encodings, each followed by more bytes, give the same
/// bytes only where they encode the same and are followed by the same.
pub open spec fn self_delimiting<T>(enc: spec_fn(T) -> Seq<u8>, valid: spec_fn(T) -> bool) -> bool {
    forall|x: T, y: T, p: Seq<u8>, q: Seq<u8>|
        valid(x) && valid(y) && #[trigger] (enc(x) + p) == #[trigger] (enc(y) + q) ==> x == y && p
            == q
}

proof fn lemma_cut(a: Seq<u8>, p: Seq<u8>, b: Seq<u8>, q: Seq<u8>)
    requires
        a.len() == b.len(),
        a + p == b + q,
    ensures
        a == b,
        p == q,
{
    assert((a + p).take(a.len() as int) =~= a);
    assert((b + q).take(b.len() as int) =~= b);
    assert((a + p).skip(a.len() as int) =~= p);
    assert((b + q).skip(b.len() as int) =~= q);
}

proof fn lemma_u64_sd(x: u64, y: u64, p: Seq<u8>, q: Seq<u8>)
    requires
        spec_u64_to_le_bytes(x) + p == spec_u64_to_le_bytes(y) + q,
    ensures
        x == y,
        p == q,
{
    lemma_auto_spec_u64_to_from_le_bytes();
    lemma_cut(spec_u64_to_le_bytes(x), p, spec_u64_to_le_bytes(y), q);
}

proof fn lemma_u16_sd(x: u16, y: u16, p: Seq<u8>, q: Seq<u8>)
    requires
        spec_u16_to_le_bytes(x) + p == spec_u16_to_le_bytes(y) + q,
    ensures
        x == y,
        p == q,
{
    lemma_auto_spec_u16_to_from_le_bytes();
    lemma_cut(spec_u16_to_le_bytes(x), p, spec_u16_to_le_bytes(y), q);
}

proof fn lemma_len_sd(n: nat, m: nat, p: Seq<u8>, q: Seq<u8>)
    requires
        fits(n),
        fits(m),
        enc_len(n) + p == enc_len(m) + q,
    ensures
        n == m,
        p == q,
{
    lemma_u64_sd(n as u64, m as u64, p, q);
}

proof fn lemma_char_sd(x: char, y: char, p: Seq<u8>, q: Seq<u8>)
    requires
        enc_char(x) + p == enc_char(y) + q,
    ensures
        x == y,
        p == q,
{
    lemma_auto_spec_u32_to_from_le_bytes();
    lemma_cut(spec_u32_to_le_bytes(x as u32), p, spec_u32_to_le_bytes(y as u32), q);
    assert(x as u32 == y as u32);
}

proof fn lemma_tag_sd(x: u8, y: u8, p: Seq<u8>, q: Seq<u8>)
    requires
        seq![x] + p == seq![y] + q,
    ensures
        x == y,
        p == q,
{
    lemma_cut(seq![x], p, seq![y], q);
    assert(seq![x][0] == seq![y][0]);
}

/// As many items on both sides, each encoded by a self-delimiting encoding,
/// give the same bytes only where they are the same items.
proof fn lemma_items_sd<T>(
    a: Seq<T>,
    b: Seq<T>,
    enc: spec_fn(T) -> Seq<u8>,
    valid: spec_fn(T) -> bool,
    p: Seq<u8>,
    q: Seq<u8>,
)
    requires
        self_delimiting(enc, valid),
        a.len() == b.len(),
        forall|i: int| 0 <= i < a.len() ==> valid(#[trigger] a[i]),
        forall|i: int| 0 <= i < b.len() ==> valid(#[trigger] b[i]),
        enc_seq(a, enc) + p == enc_seq(b, enc) + q,
    ensures
        a == b,
        p == q,
    decreases a.len(),
{
    if a.len() == 0 {
        assert(enc_seq(a, enc) + p =~= p);
        assert(enc_seq(b, enc) + q =~= q);
        assert(a =~= b);
    } else {
        let more_a = enc(a.last()) + p;
        let more_b = enc(b.last()) + q;
        assert(enc_seq(a, enc) + p =~= enc_seq(a.drop_last(), enc) + more_a);
        assert(enc_seq(b, enc) + q =~= enc_seq(b.drop_last(), enc) + more_b);
        assert forall|i: int| 0 <= i < a.drop_last().len() implies valid(
            #[trigger] a.drop_last()[i],
        ) by {
            assert(a.drop_last()[i] == a[i]);
        }
        assert forall|i: int| 0 <= i < b.drop_last().len() implies valid(
            #[trigger] b.drop_last()[i],
        ) by {
            assert(b.drop_last()[i] == b[i]);
        }
        lemma_items_sd(a.drop_last(), b.drop_last(), enc, valid, more_a, more_b);
        assert(valid(a[a.len() - 1]) && valid(b[b.len() - 1]));
        assert(a.last() == b.last() && p == q);
        assert(a =~= a.drop_last().push(a.last()));
        assert(b =~= b.drop_last().push(b.last()));
    }
}

proof fn lemma_text_sd(a: Seq<char>, b: Seq<char>, p: Seq<u8>, q: Seq<u8>)
    requires
        text_fits(a),
        text_fits(b),
        enc_text(a) + p == enc_text(b) + q,
    ensures
        a == b,
        p == q,
{
    let enc = |c: char| enc_char(c);
    let valid = |c: char| true;
    let rest_a = enc_seq(a, enc) + p;
    let rest_b = enc_seq(b, enc) + q;
    assert(enc_text(a) + p =~= enc_len(a.len()) + rest_a);
    assert(enc_text(b) + q =~= enc_len(b.len()) + rest_b);
    lemma_len_sd(a.len(), b.len(), rest_a, rest_b);
    assert(self_delimiting(enc, valid)) by {
        assert forall|x: char, y: char, p: Seq<u8>, q: Seq<u8>|
            valid(x) && valid(y) && #[trigger] (enc(x) + p) == #[trigger] (enc(y)
                + q) implies x == y && p == q by {
            lemma_char_sd(x, y, p, q);
        }
    }
    lemma_items_sd(a, b, enc, valid, p, q);
}

proof fn lemma_texts_sd()
    ensures
        self_delimiting(|text: Seq<char>| enc_text(text), |text: Seq<char>| text_fits(text)),
{
    let enc = |text: Seq<char>| enc_text(text);
    let valid = |text: Seq<char>| text_fits(text);
    assert forall|x: Seq<char>, y: Seq<char>, p: Seq<u8>, q: Seq<u8>|
        valid(x) && valid(y) && #[trigger] (enc(x) + p) == #[trigger] (enc(y) + q) implies x == y
        && p == q by {
        lemma_text_sd(x, y, p, q);
    }
}

proof fn lemma_file_sd(a: FileSectionView, b: FileSectionView, p: Seq<u8>, q: Seq<u8>)
    requires
        file_fits(a),
        file_fits(b),
        enc_file(a) + p == enc_file(b) + q,
    ensures
        a == b,
        p == q,
{
    let enc = |hunk: Seq<char>| enc_text(hunk);
    let valid = |text: Seq<char>| text_fits(text);
    let hunks_a = enc_seq(a.hunks, enc) + p;
    let hunks_b = enc_seq(b.hunks, enc) + q;
    let count_a = enc_len(a.hunks.len()) + hunks_a;
    let count_b = enc_len(b.hunks.len()) + hunks_b;
    assert(enc_file(a) + p =~= enc_text(a.header) + count_a);
    assert(enc_file(b) + q =~= enc_text(b.header) + count_b);
    lemma_text_sd(a.header, b.header, count_a, count_b);
    lemma_len_sd(a.hunks.len(), b.hunks.len(), hunks_a, hunks_b);
    lemma_texts_sd();
    assert(enc == |text: Seq<char>| enc_text(text));
    lemma_items_sd(a.hunks, b.hunks, enc, valid, p, q);
}

proof fn lemma_mode_sd(a: UiModeView, b: UiModeView, p: Seq<u8>, q: Seq<u8>)
    requires
        mode_fits(a),
        mode_fits(b),
        enc_mode(a) + p == enc_mode(b) + q,
    ensures
        a == b,
        p == q,
{
    let tag_a: u8 = enc_mode(a)[0];
    let tag_b: u8 = enc_mode(b)[0];
    let rest_a = enc_mode(a).skip(1) + p;
    let rest_b = enc_mode(b).skip(1) + q;
    assert(enc_mode(a) + p =~= seq![tag_a] + rest_a);
    assert(enc_mode(b) + q =~= seq![tag_b] + rest_b);
    lemma_tag_sd(tag_a, tag_b, rest_a, rest_b);
    match (a, b) {
        (
            UiModeView::Editing { commit: ca, message: ma, assign_to_hunk: ha },
            UiModeView::Editing { commit: cb, message: mb, assign_to_hunk: hb },
        ) => {
            let hunk_a = match ha {
                Some(hunk) => seq![1u8] + enc_len(hunk as nat),
                None => seq![0u8],
            };
            let hunk_b = match hb {
                Some(hunk) => seq![1u8] + enc_len(hunk as nat),
                None => seq![0u8],
            };
            let text_a = enc_text(ma) + (hunk_a + p);
            let text_b = enc_text(mb) + (hunk_b + q);
            assert(rest_a =~= enc_char(ca) + text_a);
            assert(rest_b =~= enc_char(cb) + text_b);
            lemma_char_sd(ca, cb, text_a, text_b);
            lemma_text_sd(ma, mb, hunk_a + p, hunk_b + q);
            let last_a = hunk_a.skip(1) + p;
            let last_b = hunk_b.skip(1) + q;
            assert(hunk_a + p =~= seq![hunk_a[0]] + last_a);
            assert(hunk_b + q =~= seq![hunk_b[0]] + last_b);
            lemma_tag_sd(hunk_a[0], hunk_b[0], last_a, last_b);
            match (ha, hb) {
                (Some(x), Some(y)) => {
                    assert(last_a =~= enc_len(x as nat) + p);
                    assert(last_b =~= enc_len(y as nat) + q);
                    lemma_len_sd(x as nat, y as nat, p, q);
                },
                (None, None) => {
                    assert(last_a =~= p);
                    assert(last_b =~= q);
                },
                _ => {},
            }
        },
        (UiModeView::Viewing { active_hunk: x }, UiModeView::Viewing { active_hunk: y }) => {
            assert(rest_a =~= enc_len(x as nat) + p);
            assert(rest_b =~= enc_len(y as nat) + q);
            lemma_len_sd(x as nat, y as nat, p, q);
        },
        (UiModeView::WaitingToEdit, UiModeView::WaitingToEdit) => {
            assert(rest_a =~= p);
            assert(rest_b =~= q);
        },
        _ => {},
    }
}

proof fn lemma_slot_sd(a: Option<CommitId>, b: Option<CommitId>, p: Seq<u8>, q: Seq<u8>)
    requires
        enc_slot(a) + p == enc_slot(b) + q,
    ensures
        a == b,
        p == q,
{
    let rest_a = enc_slot(a).skip(1) + p;
    let rest_b = enc_slot(b).skip(1) + q;
    assert(enc_slot(a) + p =~= seq![enc_slot(a)[0]] + rest_a);
    assert(enc_slot(b) + q =~= seq![enc_slot(b)[0]] + rest_b);
    lemma_tag_sd(enc_slot(a)[0], enc_slot(b)[0], rest_a, rest_b);
    match (a, b) {
        (Some(x), Some(y)) => {
            assert(rest_a =~= enc_char(x) + p);
            assert(rest_b =~= enc_char(y) + q);
            lemma_char_sd(x, y, p, q);
        },
        (None, None) => {
            assert(rest_a =~= p);
            assert(rest_b =~= q);
        },
        _ => {},
    }
}

proof fn lemma_message_sd(a: Option<Seq<char>>, b: Option<Seq<char>>, p: Seq<u8>, q: Seq<u8>)
    requires
        message_fits(a),
        message_fits(b),
        enc_message(a) + p == enc_message(b) + q,
    ensures
        a == b,
        p == q,
{
    let rest_a = enc_message(a).skip(1) + p;
    let rest_b = enc_message(b).skip(1) + q;
    assert(enc_message(a) + p =~= seq![enc_message(a)[0]] + rest_a);
    assert(enc_message(b) + q =~= seq![enc_message(b)[0]] + rest_b);
    lemma_tag_sd(enc_message(a)[0], enc_message(b)[0], rest_a, rest_b);
    match (a, b) {
        (Some(x), Some(y)) => {
            assert(rest_a =~= enc_text(x) + p);
            assert(rest_b =~= enc_text(y) + q);
            lemma_text_sd(x, y, p, q);
        },
        (None, None) => {
            assert(rest_a =~= p);
            assert(rest_b =~= q);
        },
        _ => {},
    }
}

spec fn tail_from_slots(s: UiStateView) -> Seq<u8> {
    enc_len(s.hunk_commits.len()) + enc_seq(s.hunk_commits, |slot: Option<CommitId>| enc_slot(slot))
}

spec fn tail_from_messages(s: UiStateView) -> Seq<u8> {
    enc_seq(message_slots(s.messages), |message: Option<Seq<char>>| enc_message(message))
        + tail_from_slots(s)
}

spec fn tail_from_stack(s: UiStateView) -> Seq<u8> {
    enc_len(s.previous_modes.len()) + (enc_seq(s.previous_modes, |mode: UiModeView| enc_mode(mode))
        + tail_from_messages(s))
}

spec fn tail_from_mode(s: UiStateView) -> Seq<u8> {
    enc_mode(s.active_mode) + tail_from_stack(s)
}

spec fn tail_from_partial(s: UiStateView) -> Seq<u8> {
    enc_bool(s.allow_partial) + tail_from_mode(s)
}

spec fn tail_from_size(s: UiStateView) -> Seq<u8> {
    spec_u16_to_le_bytes(s.force_redraw_terminal_size.0) + (spec_u16_to_le_bytes(
        s.force_redraw_terminal_size.1,
    ) + tail_from_partial(s))
}

spec fn tail_from_gen(s: UiStateView) -> Seq<u8> {
    spec_u64_to_le_bytes(s.force_redraw_gen) + tail_from_size(s)
}

spec fn tail_from_files(s: UiStateView) -> Seq<u8> {
    enc_len(s.files.len()) + (enc_seq(s.files, |file: FileSectionView| enc_file(file))
        + tail_from_gen(s))
}

proof fn lemma_state_bytes_in_parts(s: UiStateView)
    ensures
        state_bytes(s) == enc_bool(s.dont_save) + tail_from_files(s),
{
    let files = enc_seq(s.files, |file: FileSectionView| enc_file(file));
    let modes = enc_seq(s.previous_modes, |mode: UiModeView| enc_mode(mode));
    let messages = enc_seq(
        message_slots(s.messages),
        |message: Option<Seq<char>>| enc_message(message),
    );
    let slots = enc_seq(s.hunk_commits, |slot: Option<CommitId>| enc_slot(slot));
    let l1 = enc_bool(s.dont_save);
    let l2 = l1 + enc_len(s.files.len());
    let l3 = l2 + files;
    let l4 = l3 + spec_u64_to_le_bytes(s.force_redraw_gen);
    let l5 = l4 + spec_u16_to_le_bytes(s.force_redraw_terminal_size.0);
    let l6 = l5 + spec_u16_to_le_bytes(s.force_redraw_terminal_size.1);
    let l7 = l6 + enc_bool(s.allow_partial);
    let l8 = l7 + enc_mode(s.active_mode);
    let l9 = l8 + enc_len(s.previous_modes.len());
    let l10 = l9 + modes;
    let l11 = l10 + messages;
    let l12 = l11 + enc_len(s.hunk_commits.len());
    let gen = spec_u64_to_le_bytes(s.force_redraw_gen);
    let width = spec_u16_to_le_bytes(s.force_redraw_terminal_size.0);
    let height = spec_u16_to_le_bytes(s.force_redraw_terminal_size.1);
    assert(state_bytes(s) == l12 + slots);
    lemma_concat_associative(l11, enc_len(s.hunk_commits.len()), slots);
    lemma_concat_associative(l10, messages, tail_from_slots(s));
    lemma_concat_associative(l9, modes, tail_from_messages(s));
    lemma_concat_associative(l8, enc_len(s.previous_modes.len()), modes + tail_from_messages(s));
    lemma_concat_associative(l7, enc_mode(s.active_mode), tail_from_stack(s));
    lemma_concat_associative(l6, enc_bool(s.allow_partial), tail_from_mode(s));
    lemma_concat_associative(l5, height, tail_from_partial(s));
    lemma_concat_associative(l4, width, height + tail_from_partial(s));
    lemma_concat_associative(l3, gen, tail_from_size(s));
    lemma_concat_associative(l2, files, tail_from_gen(s));
    lemma_concat_associative(l1, enc_len(s.files.len()), files + tail_from_gen(s));
}

proof fn lemma_message_slots_fit(s: UiStateView)
    requires
        encodable(s),
    ensures
        forall|i: int|
            0 <= i < message_slots(s.messages).len() ==> message_fits(
                #[trigger] message_slots(s.messages)[i],
            ),
{
}

/// Maps over commit ids that give the same message for each of the ten ids
/// are the same map.
proof fn lemma_same_messages(a: Map<CommitId, Seq<char>>, b: Map<CommitId, Seq<char>>)
    requires
        forall|c: char| a.dom().contains(c) ==> is_commit_id(c),
        forall|c: char| b.dom().contains(c) ==> is_commit_id(c),
        message_slots(a) == message_slots(b),
    ensures
        a == b,
{
    assert forall|c: char|
        #![trigger a.dom().contains(c)]
        #![trigger b.dom().contains(c)]
        (a.dom().contains(c) <==> b.dom().contains(c)) && (a.dom().contains(c) ==> a[c] == b[c]) by {
        if is_commit_id(c) {
            let slot = slot_of(c);
            assert(id_at(slot) == c);
            assert(message_slots(a)[slot] == message_slots(b)[slot]);
        }
    }
    assert(a.dom() =~= b.dom());
    assert(a =~= b);
}

/// The bytes of a state tell the state: well-formed states whose bytes are
/// the same are the same state. So the fingerprint, which is the hash of
/// these bytes, can miss a change of the state only where the hash does.
pub proof fn lemma_state_bytes_tell_the_state(a: UiStateView, b: UiStateView)
    requires
        a.wf(),
        b.wf(),
        encodable(a),
        encodable(b),
        state_bytes(a) == state_bytes(b),
    ensures
        a == b,
{
    lemma_state_bytes_in_parts(a);
    lemma_state_bytes_in_parts(b);
    lemma_tag_sd(
        enc_bool(a.dont_save)[0],
        enc_bool(b.dont_save)[0],
        tail_from_files(a),
        tail_from_files(b),
    );
    let files = |file: FileSectionView| enc_file(file);
    let files_fit = |file: FileSectionView| file_fits(file);
    lemma_len_sd(
        a.files.len(),
        b.files.len(),
        enc_seq(a.files, files) + tail_from_gen(a),
        enc_seq(b.files, files) + tail_from_gen(b),
    );
    assert(self_delimiting(files, files_fit)) by {
        assert forall|x: FileSectionView, y: FileSectionView, p: Seq<u8>, q: Seq<u8>|
            files_fit(x) && files_fit(y) && #[trigger] (files(x) + p) == #[trigger] (files(y)
                + q) implies x == y && p == q by {
            lemma_file_sd(x, y, p, q);
        }
    }
    lemma_items_sd(a.files, b.files, files, files_fit, tail_from_gen(a), tail_from_gen(b));
    lemma_u64_sd(a.force_redraw_gen, b.force_redraw_gen, tail_from_size(a), tail_from_size(b));
    lemma_u16_sd(
        a.force_redraw_terminal_size.0,
        b.force_redraw_terminal_size.0,
        spec_u16_to_le_bytes(a.force_redraw_terminal_size.1) + tail_from_partial(a),
        spec_u16_to_le_bytes(b.force_redraw_terminal_size.1) + tail_from_partial(b),
    );
    lemma_u16_sd(
        a.force_redraw_terminal_size.1,
        b.force_redraw_terminal_size.1,
        tail_from_partial(a),
        tail_from_partial(b),
    );
    lemma_tag_sd(
        enc_bool(a.allow_partial)[0],
        enc_bool(b.allow_partial)[0],
        tail_from_mode(a),
        tail_from_mode(b),
    );
    lemma_mode_sd(a.active_mode, b.active_mode, tail_from_stack(a), tail_from_stack(b));
    let modes = |mode: UiModeView| enc_mode(mode);
    let modes_fit = |mode: UiModeView| mode_fits(mode);
    lemma_len_sd(
        a.previous_modes.len(),
        b.previous_modes.len(),
        enc_seq(a.previous_modes, modes) + tail_from_messages(a),
        enc_seq(b.previous_modes, modes) + tail_from_messages(b),
    );
    assert(self_delimiting(modes, modes_fit)) by {
        assert forall|x: UiModeView, y: UiModeView, p: Seq<u8>, q: Seq<u8>|
            modes_fit(x) && modes_fit(y) && #[trigger] (modes(x) + p) == #[trigger] (modes(y)
                + q) implies x == y && p == q by {
            lemma_mode_sd(x, y, p, q);
        }
    }
    lemma_items_sd(
        a.previous_modes,
        b.previous_modes,
        modes,
        modes_fit,
        tail_from_messages(a),
        tail_from_messages(b),
    );
    let messages = |message: Option<Seq<char>>| enc_message(message);
    let messages_fit = |message: Option<Seq<char>>| message_fits(message);
    assert(self_delimiting(messages, messages_fit)) by {
        assert forall|x: Option<Seq<char>>, y: Option<Seq<char>>, p: Seq<u8>, q: Seq<u8>|
            messages_fit(x) && messages_fit(y) && #[trigger] (messages(x) + p) == #[trigger] (
            messages(y) + q) implies x == y && p == q by {
            lemma_message_sd(x, y, p, q);
        }
    }
    lemma_message_slots_fit(a);
    lemma_message_slots_fit(b);
    lemma_items_sd(
        message_slots(a.messages),
        message_slots(b.messages),
        messages,
        messages_fit,
        tail_from_slots(a),
        tail_from_slots(b),
    );
    lemma_same_messages(a.messages, b.messages);
    let slots = |slot: Option<CommitId>| enc_slot(slot);
    let any = |slot: Option<CommitId>| true;
    lemma_len_sd(
        a.hunk_commits.len(),
        b.hunk_commits.len(),
        enc_seq(a.hunk_commits, slots),
        enc_seq(b.hunk_commits, slots),
    );
    assert(self_delimiting(slots, any)) by {
        assert forall|x: Option<CommitId>, y: Option<CommitId>, p: Seq<u8>, q: Seq<u8>|
            any(x) && any(y) && #[trigger] (slots(x) + p) == #[trigger] (slots(y)
                + q) implies x == y && p == q by {
            lemma_slot_sd(x, y, p, q);
        }
    }
    assert(enc_seq(a.hunk_commits, slots) + Seq::<u8>::empty() =~= enc_seq(a.hunk_commits, slots));
    assert(enc_seq(b.hunk_commits, slots) + Seq::<u8>::empty() =~= enc_seq(b.hunk_commits, slots));
    lemma_items_sd(a.hunk_commits, b.hunk_commits, slots, any, Seq::empty(), Seq::empty());
}

} // verus!
