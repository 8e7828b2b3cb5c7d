//! The mathematical model of the line editor: its state, and what each operation and each
//! key does to it.
use vstd::prelude::*;

use crate::chars::word_char;

verus! {

/// The editing mode.
#[derive(Clone, Copy, Debug, PartialEq, Eq, Structural)]
pub enum InputEditMode {
    Insert,
    Normal,
    Visual,
}

/// What a key asks of the editor's owner.
#[derive(Clone, Copy, Debug, PartialEq, Eq, Structural)]
pub enum EditorCommand {
    NoOp,
    Submit,
    ExitInputMode,
    IncrementFocus,
    DecrementFocus,
    /// The characters `start..=end` were yanked.
    Yanked { start: usize, end: usize },
}

/// A cursor motion.
#[derive(Clone, Copy, Debug, PartialEq, Eq, Structural)]
pub enum Motion {
    Left,
    Right,
    LineStart,
    LineEnd,
    WordForward,
    WordBackward,
}

/// A key press, as the editor reads it.
#[derive(Clone, Copy, Debug, PartialEq, Eq, Structural)]
pub enum Key {
    Char(char),
    Esc,
    Enter,
    Backspace,
    Left,
    Right,
    Up,
    Down,
    Tab,
    BackTab,
    Other,
}

/// The state of the editor.
pub struct EditorState {
    pub text: Seq<char>,
    pub cursor: nat,
    pub mode: InputEditMode,
    pub register: Seq<char>,
    pub anchor: Option<nat>,
}

pub open spec fn min(a: int, b: int) -> int {
    if a <= b { a } else { b }
}

/// The last position a cursor can stand on in Normal and Visual mode.
pub open spec fn last_index(len: nat) -> nat {
    if len == 0 { 0 } else { (len - 1) as nat }
}

/// The highest cursor position in `mode` over a text of `len` characters: between
/// characters in Insert mode, on a character otherwise.
pub open spec fn cursor_limit(mode: InputEditMode, len: nat) -> nat {
    if mode == InputEditMode::Insert { len } else { last_index(len) }
}

/// `c` clamped into the range of `mode`.
pub open spec fn clamp_for(mode: InputEditMode, len: nat, c: int) -> nat {
    if c < 0 { 0 } else { min(c, cursor_limit(mode, len) as int) as nat }
}

/// The editor's invariant: the cursor lies in the range of the mode, and a selection
/// anchor exists only in Visual mode.
pub open spec fn state_ok(s: EditorState) -> bool {
    &&& s.cursor <= cursor_limit(s.mode, s.text.len())
    &&& s.anchor is Some ==> s.mode == InputEditMode::Visual
}

/// `text` with `ins` put in at position `at`.
pub open spec fn spliced(text: Seq<char>, at: int, ins: Seq<char>) -> Seq<char> {
    text.subrange(0, at) + ins + text.subrange(at, text.len() as int)
}

/// `text` without the characters `from..to`.
pub open spec fn cut(text: Seq<char>, from: int, to: int) -> Seq<char> {
    text.subrange(0, from) + text.subrange(to, text.len() as int)
}

/// The end of the run of word characters from `j`.
pub open spec fn skip_word(t: Seq<char>, j: int) -> int
    decreases t.len() - j,
{
    if 0 <= j < t.len() && word_char(t[j]) { skip_word(t, j + 1) } else { j }
}

/// The end of the run of other characters from `j`.
pub open spec fn skip_gap(t: Seq<char>, j: int) -> int
    decreases t.len() - j,
{
    if 0 <= j < t.len() && !word_char(t[j]) { skip_gap(t, j + 1) } else { j }
}

/// Back from `j` over other characters, to a word character or the start.
pub open spec fn back_gap(t: Seq<char>, j: int) -> int
    decreases j,
{
    if 0 < j < t.len() && !word_char(t[j]) { back_gap(t, j - 1) } else { j }
}

/// Back from `j` to the start of the word that ends there.
pub open spec fn back_word(t: Seq<char>, j: int) -> int
    decreases j,
{
    if 0 < j <= t.len() && word_char(t[j - 1]) { back_word(t, j - 1) } else { j }
}

/// Where `motion` takes a cursor at `cursor` in `t` (Normal and Visual mode ranges).
pub open spec fn motion_target_of(t: Seq<char>, cursor: nat, motion: Motion) -> nat {
    let len = t.len() as int;
    if len == 0 {
        0
    } else {
        let i = min(cursor as int, len - 1);
        (match motion {
            Motion::Left => if i == 0 { 0 } else { i - 1 },
            Motion::Right => min(i + 1, len - 1),
            Motion::LineStart => 0,
            Motion::LineEnd => len - 1,
            Motion::WordForward => {
                let j = skip_gap(t, if word_char(t[i]) { skip_word(t, i) } else { i });
                if j >= len { len - 1 } else { j }
            },
            Motion::WordBackward => if i == 0 { 0 } else { back_word(t, back_gap(t, i - 1)) },
        }) as nat
    }
}

/// The selection `(from, to)`, both included, in Visual mode over a non-empty text.
pub open spec fn visual_range_of(s: EditorState) -> Option<(nat, nat)> {
    let len = s.text.len();
    if len == 0 || s.anchor is None {
        None
    } else {
        let a = min(s.anchor->Some_0 as int, len - 1) as nat;
        let c = min(s.cursor as int, len - 1) as nat;
        if a <= c { Some((a, c)) } else { Some((c, a)) }
    }
}

pub open spec fn switched_to_insert(s: EditorState) -> EditorState {
    EditorState {
        mode: InputEditMode::Insert,
        cursor: min(s.cursor as int, s.text.len() as int) as nat,
        anchor: None,
        ..s
    }
}

pub open spec fn switched_to_normal(s: EditorState) -> EditorState {
    let len = s.text.len();
    EditorState {
        mode: InputEditMode::Normal,
        anchor: None,
        cursor: if len == 0 {
            0
        } else if s.mode == InputEditMode::Insert {
            min(if s.cursor == 0 { 0 } else { s.cursor - 1 }, len - 1) as nat
        } else {
            min(s.cursor as int, len - 1) as nat
        },
        ..s
    }
}

pub open spec fn switched_to_visual(s: EditorState) -> EditorState {
    let len = s.text.len();
    if len == 0 {
        EditorState { mode: InputEditMode::Visual, cursor: 0, anchor: None, ..s }
    } else {
        let c = min(s.cursor as int, len - 1) as nat;
        EditorState { mode: InputEditMode::Visual, cursor: c, anchor: Some(c), ..s }
    }
}

pub open spec fn moved_insert_left(s: EditorState) -> EditorState {
    EditorState { cursor: if s.cursor == 0 { 0 } else { (s.cursor - 1) as nat }, ..s }
}

pub open spec fn moved_insert_right(s: EditorState) -> EditorState {
    EditorState { cursor: clamp_for(s.mode, s.text.len(), s.cursor + 1int), ..s }
}

pub open spec fn entered_char(s: EditorState, c: char) -> EditorState {
    let t = spliced(s.text, s.cursor as int, seq![c]);
    EditorState { text: t, cursor: clamp_for(s.mode, t.len(), s.cursor + 1int), ..s }
}

pub open spec fn backspaced(s: EditorState) -> EditorState {
    if s.cursor == 0 {
        s
    } else {
        EditorState { text: cut(s.text, s.cursor - 1, s.cursor as int), cursor: (s.cursor - 1) as nat, ..s }
    }
}

pub open spec fn deleted_under_cursor(s: EditorState) -> EditorState {
    let len = s.text.len();
    if len == 0 || s.cursor >= len {
        s
    } else {
        let t = cut(s.text, s.cursor as int, s.cursor + 1int);
        EditorState {
            text: t,
            cursor: if t.len() == 0 { 0 } else if s.cursor >= t.len() { (t.len() - 1) as nat } else { s.cursor },
            ..s
        }
    }
}

pub open spec fn applied_motion(s: EditorState, m: Motion) -> EditorState {
    EditorState { cursor: motion_target_of(s.text, s.cursor, m), ..s }
}

pub open spec fn yanked_visual(s: EditorState) -> EditorState {
    match visual_range_of(s) {
        Some((from, to)) => EditorState { register: s.text.subrange(from as int, to + 1int), ..s },
        None => s,
    }
}

pub open spec fn deleted_visual(s: EditorState) -> EditorState {
    match visual_range_of(s) {
        Some((from, to)) => {
            let t = cut(s.text, from as int, to + 1int);
            EditorState {
                text: t,
                cursor: if t.len() == 0 { 0 } else { min(from as int, t.len() - 1) as nat },
                ..s
            }
        },
        None => s,
    }
}

/// The characters `from..to` that yanking with `motion` copies (a non-empty text).
pub open spec fn yank_span(t: Seq<char>, cursor: nat, motion: Motion) -> (int, int) {
    let len = t.len() as int;
    let start = min(cursor as int, len - 1);
    match motion {
        Motion::WordForward => {
            let end = if word_char(t[start]) { skip_word(t, start) } else { skip_word(t, skip_gap(t, start)) };
            (start, min(if end >= start + 1 { end } else { start + 1 }, len))
        },
        Motion::WordBackward => (if start > 0 { back_word(t, back_gap(t, start)) } else { start }, start + 1),
        _ => {
            let end = motion_target_of(t, cursor, motion) as int;
            if start <= end { (start, min(end + 1, len)) } else { (end, min(start + 1, len)) }
        },
    }
}

pub open spec fn yanked_with_motion(s: EditorState, m: Motion) -> EditorState {
    if s.text.len() == 0 {
        EditorState { register: seq![], ..s }
    } else {
        let (from, to) = yank_span(s.text, s.cursor, m);
        EditorState { register: s.text.subrange(from, to), ..s }
    }
}

/// The register put in at `at`, the cursor on its last character, clamped for the mode.
pub open spec fn pasted_at(s: EditorState, at: int) -> EditorState {
    if s.register.len() == 0 {
        s
    } else {
        let t = spliced(s.text, at, s.register);
        EditorState { text: t, cursor: clamp_for(s.mode, t.len(), at + s.register.len() - 1int), ..s }
    }
}

pub open spec fn pasted_after(s: EditorState) -> EditorState {
    pasted_at(s, if s.text.len() == 0 { 0 } else { min(s.cursor + 1int, s.text.len() as int) })
}

pub open spec fn pasted_before(s: EditorState) -> EditorState {
    pasted_at(s, min(s.cursor as int, s.text.len() as int))
}

/// The motion a key stands for in Normal and Visual mode.
pub open spec fn motion_of_key(k: Key) -> Option<Motion> {
    match k {
        Key::Left | Key::Char('h') => Some(Motion::Left),
        Key::Right | Key::Char('l') => Some(Motion::Right),
        Key::Char('0') => Some(Motion::LineStart),
        Key::Char('$') => Some(Motion::LineEnd),
        Key::Char('w') => Some(Motion::WordForward),
        Key::Char('b') => Some(Motion::WordBackward),
        _ => None,
    }
}

pub open spec fn moved_by_key(s: EditorState, k: Key) -> EditorState {
    match motion_of_key(k) {
        Some(m) => applied_motion(s, m),
        None => s,
    }
}

pub open spec fn insert_step(s: EditorState, k: Key) -> (EditorState, EditorCommand) {
    match k {
        Key::Esc => (switched_to_normal(s), EditorCommand::NoOp),
        Key::Enter => (s, EditorCommand::Submit),
        Key::Char(c) => (entered_char(s, c), EditorCommand::NoOp),
        Key::Backspace => (backspaced(s), EditorCommand::NoOp),
        Key::Left => (moved_insert_left(s), EditorCommand::NoOp),
        Key::Right => (moved_insert_right(s), EditorCommand::NoOp),
        _ => (s, EditorCommand::NoOp),
    }
}

pub open spec fn normal_step(s: EditorState, k: Key) -> (EditorState, EditorCommand) {
    let len = s.text.len();
    match k {
        Key::Esc => (s, EditorCommand::ExitInputMode),
        Key::Enter => (s, EditorCommand::Submit),
        Key::Tab => (s, EditorCommand::IncrementFocus),
        Key::BackTab => (s, EditorCommand::DecrementFocus),
        Key::Char('i') => (switched_to_insert(s), EditorCommand::NoOp),
        Key::Char('a') => (
            switched_to_insert(EditorState { cursor: if len == 0 { 0 } else { min(s.cursor + 1int, len as int) as nat }, ..s }),
            EditorCommand::NoOp,
        ),
        Key::Char('I') => (switched_to_insert(EditorState { cursor: 0, ..s }), EditorCommand::NoOp),
        Key::Char('A') => (switched_to_insert(EditorState { cursor: len, ..s }), EditorCommand::NoOp),
        Key::Char('x') => (deleted_under_cursor(s), EditorCommand::NoOp),
        Key::Char('v') => (switched_to_visual(s), EditorCommand::NoOp),
        Key::Char('p') => (pasted_after(s), EditorCommand::NoOp),
        Key::Char('P') => (pasted_before(s), EditorCommand::NoOp),
        _ => (moved_by_key(s, k), EditorCommand::NoOp),
    }
}

pub open spec fn visual_step(s: EditorState, k: Key) -> (EditorState, EditorCommand) {
    match k {
        Key::Esc | Key::Char('v') => (switched_to_normal(s), EditorCommand::NoOp),
        Key::Enter => (s, EditorCommand::Submit),
        Key::Char('y') => (
            switched_to_normal(yanked_visual(s)),
            match visual_range_of(s) {
                Some((from, to)) => EditorCommand::Yanked { start: from as usize, end: to as usize },
                None => EditorCommand::NoOp,
            },
        ),
        Key::Char('d') | Key::Char('x') => (switched_to_normal(deleted_visual(s)), EditorCommand::NoOp),
        _ => (moved_by_key(s, k), EditorCommand::NoOp),
    }
}

/// What a key does, by mode.
pub open spec fn step(s: EditorState, k: Key) -> (EditorState, EditorCommand) {
    match s.mode {
        InputEditMode::Insert => insert_step(s, k),
        InputEditMode::Normal => normal_step(s, k),
        InputEditMode::Visual => visual_step(s, k),
    }
}

/// The state after the keys `keys`, one after another.
pub open spec fn run_keys(s: EditorState, keys: Seq<Key>) -> EditorState
    decreases keys.len(),
{
    if keys.len() == 0 {
        s
    } else {
        run_keys(step(s, keys[0]).0, keys.drop_first())
    }
}

proof fn lemma_back_gap(t: Seq<char>, j: int)
    requires
        0 <= j < t.len(),
    ensures
        0 <= back_gap(t, j) <= j,
    decreases j,
{
    if 0 < j && !word_char(t[j]) {
        lemma_back_gap(t, j - 1);
    }
}

proof fn lemma_back_word(t: Seq<char>, j: int)
    requires
        0 <= j <= t.len(),
    ensures
        0 <= back_word(t, j) <= j,
    decreases j,
{
    if 0 < j && word_char(t[j - 1]) {
        lemma_back_word(t, j - 1);
    }
}

proof fn lemma_skip_forward(t: Seq<char>, j: int)
    requires
        0 <= j,
    ensures
        j <= skip_word(t, j),
        j <= skip_gap(t, j),
    decreases t.len() - j,
{
    if j < t.len() {
        lemma_skip_forward(t, j + 1);
    }
}

/// Every motion lands on a character of the text (on `0` when it is empty).
pub proof fn lemma_motion_in_range(t: Seq<char>, cursor: nat, m: Motion)
    ensures
        motion_target_of(t, cursor, m) <= last_index(t.len()),
{
    let len = t.len() as int;
    if len > 0 {
        let i = min(cursor as int, len - 1);
        if m == Motion::WordBackward && i > 0 {
            lemma_back_gap(t, i - 1);
            lemma_back_word(t, back_gap(t, i - 1));
        }
        if m == Motion::WordForward {
            lemma_skip_forward(t, i);
            lemma_skip_forward(t, skip_word(t, i));
        }
    }
}

/// Every key keeps the cursor in the range of the mode, and an anchor only in Visual mode.
pub proof fn lemma_step_keeps_state_ok(s: EditorState, k: Key)
    requires
        state_ok(s),
    ensures
        state_ok(step(s, k).0),
{
    lemma_motion_in_range(s.text, s.cursor, Motion::Left);
    lemma_motion_in_range(s.text, s.cursor, Motion::Right);
    lemma_motion_in_range(s.text, s.cursor, Motion::LineStart);
    lemma_motion_in_range(s.text, s.cursor, Motion::LineEnd);
    lemma_motion_in_range(s.text, s.cursor, Motion::WordForward);
    lemma_motion_in_range(s.text, s.cursor, Motion::WordBackward);
    match s.mode {
        InputEditMode::Insert => {
            assert(state_ok(insert_step(s, k).0));
        },
        InputEditMode::Normal => {
            assert(state_ok(normal_step(s, k).0));
        },
        InputEditMode::Visual => {
            assert(state_ok(visual_step(s, k).0));
        },
    }
}

/// Whatever keys are pressed, the cursor stays in `[0, len]` in Insert mode and in
/// `[0, max(len - 1, 0)]` in Normal and Visual mode.
pub proof fn lemma_keys_keep_state_ok(s: EditorState, keys: Seq<Key>)
    requires
        state_ok(s),
    ensures
        state_ok(run_keys(s, keys)),
    decreases keys.len(),
{
    if keys.len() > 0 {
        lemma_step_keeps_state_ok(s, keys[0]);
        lemma_keys_keep_state_ok(step(s, keys[0]).0, keys.drop_first());
    }
}

} // verus!
