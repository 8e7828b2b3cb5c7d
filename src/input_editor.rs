//! A one-line editor with vi-style Insert, Normal and Visual modes and a yank register.
//!
//! Cursor positions count characters, not bytes. In Insert mode the cursor stands between
//! characters (`0..=len`); in Normal and Visual mode it stands on one (`0..len-1`, or `0`
//! when the text is empty).
use vstd::prelude::*;

use crate::chars::{chars_of, is_word_char, word_char};
use crate::editor_model::{
    applied_motion, back_gap, back_word, backspaced, clamp_for, cut, deleted_under_cursor, deleted_visual,
    entered_char, insert_step, last_index, motion_of_key, motion_target_of, moved_insert_left,
    moved_insert_right, normal_step, pasted_after, pasted_at, pasted_before, skip_gap, skip_word, spliced,
    state_ok, step, switched_to_insert, switched_to_normal, switched_to_visual, visual_range_of, visual_step,
    yanked_visual, yanked_with_motion, EditorCommand, EditorState, InputEditMode, Key, Motion,
};

verus! {

/// Relies on `String::push`: the character is appended.
#[verifier::external_body]
fn push_char(s: &mut String, c: char)
    ensures
        final(s)@ == old(s)@.push(c),
{
    s.push(c)
}

/// `s` with `ins` put in at character position `at`.
fn spliced_string(s: &str, at: usize, ins: &str) -> (r: String)
    requires
        at <= s@.len(),
    ensures
        r@ == spliced(s@, at as int, ins@),
{
    let mut r = String::from_str(s.substring_char(0, at));
    r.append(ins);
    r.append(s.substring_char(at, s.unicode_len()));
    r
}

/// `s` without the characters `from..to`.
fn cut_string(s: &str, from: usize, to: usize) -> (r: String)
    requires
        from <= to <= s@.len(),
    ensures
        r@ == cut(s@, from as int, to as int),
{
    let mut r = String::from_str(s.substring_char(0, from));
    r.append(s.substring_char(to, s.unicode_len()));
    r
}

fn skip_word_from(t: &Vec<char>, j: usize) -> (r: usize)
    requires
        j <= t@.len(),
    ensures
        r == skip_word(t@, j as int),
        j <= r <= t@.len(),
{
    let mut k = j;
    while k < t.len() && is_word_char(t[k])
        invariant
            j <= k <= t@.len(),
            skip_word(t@, j as int) == skip_word(t@, k as int),
        decreases t@.len() - k,
    {
        k += 1;
    }
    k
}

fn skip_gap_from(t: &Vec<char>, j: usize) -> (r: usize)
    requires
        j <= t@.len(),
    ensures
        r == skip_gap(t@, j as int),
        j <= r <= t@.len(),
{
    let mut k = j;
    while k < t.len() && !is_word_char(t[k])
        invariant
            j <= k <= t@.len(),
            skip_gap(t@, j as int) == skip_gap(t@, k as int),
        decreases t@.len() - k,
    {
        k += 1;
    }
    k
}

fn back_gap_from(t: &Vec<char>, j: usize) -> (r: usize)
    requires
        j < t@.len(),
    ensures
        r == back_gap(t@, j as int),
        r <= j,
{
    let mut k = j;
    while k > 0 && !is_word_char(t[k])
        invariant
            k <= j < t@.len(),
            back_gap(t@, j as int) == back_gap(t@, k as int),
        decreases k,
    {
        k -= 1;
    }
    k
}

fn back_word_from(t: &Vec<char>, j: usize) -> (r: usize)
    requires
        j <= t@.len(),
    ensures
        r == back_word(t@, j as int),
        r <= j,
{
    let mut k = j;
    while k > 0 && is_word_char(t[k - 1])
        invariant
            k <= j <= t@.len(),
            back_word(t@, j as int) == back_word(t@, k as int),
        decreases k,
    {
        k -= 1;
    }
    k
}

/// Reusable line editor with vi-style insert/normal/visual modes and yank/paste support.
pub struct InputEditor {
    input: String,
    cursor: usize,
    mode: InputEditMode,
    register: String,
    visual_anchor: Option<usize>,
}

impl View for InputEditor {
    type V = EditorState;

    closed spec fn view(&self) -> EditorState {
        EditorState {
            text: self.input@,
            cursor: self.cursor as nat,
            mode: self.mode,
            register: self.register@,
            anchor: match self.visual_anchor {
                Some(a) => Some(a as nat),
                None => None,
            },
        }
    }
}

impl Default for InputEditor {
    fn default() -> (r: Self)
        ensures
            r.wf(),
            r@.text.len() == 0,
            r@.cursor == 0,
            r@.mode == InputEditMode::Insert,
            r@.register.len() == 0,
            r@.anchor is None,
    {
        Self::new()
    }
}

impl InputEditor {
    /// The cursor lies in the range of the mode; an anchor exists only in Visual mode.
    pub open spec fn wf(&self) -> bool {
        state_ok(self@)
    }

    /// An empty editor in Insert mode.
    pub fn new() -> (r: Self)
        ensures
            r.wf(),
            r@.text.len() == 0,
            r@.cursor == 0,
            r@.mode == InputEditMode::Insert,
            r@.register.len() == 0,
            r@.anchor is None,
    {
        InputEditor {
            input: String::new(),
            cursor: 0,
            mode: InputEditMode::Insert,
            register: String::new(),
            visual_anchor: None,
        }
    }

    /// An editor in Insert mode holding `input`, the cursor after its last character.
    pub fn with_input(input: String) -> (r: Self)
        ensures
            r.wf(),
            r@.text == input@,
            r@.cursor == input@.len(),
            r@.mode == InputEditMode::Insert,
            r@.register.len() == 0,
            r@.anchor is None,
    {
        let cursor = input.as_str().unicode_len();
        InputEditor { input, cursor, mode: InputEditMode::Insert, register: String::new(), visual_anchor: None }
    }

    pub fn input(&self) -> (r: &str)
        ensures
            r@ == self@.text,
    {
        self.input.as_str()
    }

    pub fn mode(&self) -> (r: InputEditMode)
        ensures
            r == self@.mode,
    {
        self.mode
    }

    pub fn cursor(&self) -> (r: usize)
        ensures
            r == self@.cursor,
    {
        self.cursor
    }

    pub fn register(&self) -> (r: &str)
        ensures
            r@ == self@.register,
    {
        self.register.as_str()
    }

    /// The selection, both ends included, while one is active.
    pub fn visual_selection_range(&self) -> (r: Option<(usize, usize)>)
        ensures
            r == match visual_range_of(self@) {
                Some((a, b)) => Some((a as usize, b as usize)),
                None => None::<(usize, usize)>,
            },
    {
        self.visual_range()
    }

    /// Replaces the text, and goes to Insert mode with the cursor at the end.
    pub fn set_input(&mut self, input: String)
        ensures
            final(self).wf(),
            final(self)@ == (EditorState {
                text: input@,
                cursor: input@.len(),
                mode: InputEditMode::Insert,
                anchor: None,
                ..old(self)@
            }),
    {
        self.cursor = input.as_str().unicode_len();
        self.input = input;
        self.mode = InputEditMode::Insert;
        self.visual_anchor = None;
    }

    /// Empties the text, and goes to Insert mode; the register is kept.
    pub fn clear(&mut self)
        ensures
            final(self).wf(),
            final(self)@ == (EditorState {
                text: Seq::empty(),
                cursor: 0,
                mode: InputEditMode::Insert,
                anchor: None,
                ..old(self)@
            }),
    {
        self.input = String::new();
        self.cursor = 0;
        self.mode = InputEditMode::Insert;
        self.visual_anchor = None;
    }

    pub fn switch_to_insert_mode(&mut self)
        ensures
            final(self).wf(),
            final(self)@ == switched_to_insert(old(self)@),
    {
        let len = self.char_len();
        self.mode = InputEditMode::Insert;
        if self.cursor > len {
            self.cursor = len;
        }
        self.visual_anchor = None;
    }

    pub fn switch_to_normal_mode(&mut self)
        ensures
            final(self).wf(),
            final(self)@ == switched_to_normal(old(self)@),
    {
        let previous_mode = self.mode;
        self.mode = InputEditMode::Normal;
        self.visual_anchor = None;
        let len = self.char_len();
        if len == 0 {
            self.cursor = 0;
        } else {
            let c = match previous_mode {
                InputEditMode::Insert => if self.cursor == 0 { 0 } else { self.cursor - 1 },
                InputEditMode::Normal | InputEditMode::Visual => self.cursor,
            };
            self.cursor = if c < len - 1 { c } else { len - 1 };
        }
    }

    pub fn switch_to_visual_mode(&mut self)
        ensures
            final(self).wf(),
            final(self)@ == switched_to_visual(old(self)@),
    {
        self.mode = InputEditMode::Visual;
        let len = self.char_len();
        if len == 0 {
            self.cursor = 0;
            self.visual_anchor = None;
        } else {
            if self.cursor > len - 1 {
                self.cursor = len - 1;
            }
            self.visual_anchor = Some(self.cursor);
        }
    }

    pub fn move_insert_left(&mut self)
        requires
            old(self).wf(),
        ensures
            final(self).wf(),
            final(self)@ == moved_insert_left(old(self)@),
    {
        if self.cursor > 0 {
            self.cursor = self.cursor - 1;
        }
    }

    pub fn move_insert_right(&mut self)
        requires
            old(self).wf(),
        ensures
            final(self).wf(),
            final(self)@ == moved_insert_right(old(self)@),
    {
        let len = self.char_len();
        if self.cursor < len {
            self.cursor = self.cursor + 1;
        }
        self.clamp_cursor_for_mode();
    }

    /// Puts `ch` in at the cursor and moves the cursor past it.
    pub fn enter_char(&mut self, ch: char)
        requires
            old(self).wf(),
        ensures
            final(self).wf(),
            final(self)@ == entered_char(old(self)@, ch),
    {
        let mut s = String::from_str(self.input.as_str().substring_char(0, self.cursor));
        push_char(&mut s, ch);
        let after = s.as_str().unicode_len();
        s.append(self.input.as_str().substring_char(self.cursor, self.input.as_str().unicode_len()));
        self.input = s;
        self.cursor = after;
        self.clamp_cursor_for_mode();
        proof {
            assert(self.input@ =~= spliced(old(self)@.text, old(self)@.cursor as int, seq![ch]));
        }
    }

    /// Deletes the character before the cursor.
    pub fn backspace(&mut self)
        requires
            old(self).wf(),
        ensures
            final(self).wf(),
            final(self)@ == backspaced(old(self)@),
    {
        if self.cursor == 0 {
            return;
        }
        self.input = cut_string(self.input.as_str(), self.cursor - 1, self.cursor);
        self.cursor = self.cursor - 1;
    }

    /// Deletes the character under the cursor.
    pub fn delete_under_cursor(&mut self)
        requires
            old(self).wf(),
        ensures
            final(self).wf(),
            final(self)@ == deleted_under_cursor(old(self)@),
    {
        let len = self.char_len();
        if len == 0 || self.cursor >= len {
            return;
        }
        self.input = cut_string(self.input.as_str(), self.cursor, self.cursor + 1);
        let new_len = self.char_len();
        if new_len == 0 {
            self.cursor = 0;
        } else if self.cursor >= new_len {
            self.cursor = new_len - 1;
        }
    }

    pub fn apply_motion(&mut self, motion: Motion)
        requires
            old(self).wf(),
        ensures
            final(self).wf(),
            final(self)@ == applied_motion(old(self)@, motion),
    {
        self.cursor = self.motion_target(motion);
    }

    /// Copies the whole text into the register.
    pub fn yank_line(&mut self)
        requires
            old(self).wf(),
        ensures
            final(self).wf(),
            final(self)@ == (EditorState { register: old(self)@.text, ..old(self)@ }),
    {
        self.register = self.input.clone();
    }

    /// Copies the selection into the register.
    pub fn yank_visual_selection(&mut self)
        requires
            old(self).wf(),
        ensures
            final(self).wf(),
            final(self)@ == yanked_visual(old(self)@),
    {
        if let Some((from, to_inclusive)) = self.visual_range() {
            self.register = self.slice_char_range(from, to_inclusive + 1);
        }
    }

    /// Deletes the selection; the cursor lands on where it started.
    pub fn delete_visual_selection(&mut self)
        requires
            old(self).wf(),
        ensures
            final(self).wf(),
            final(self)@ == deleted_visual(old(self)@),
    {
        let (from, to_inclusive) = match self.visual_range() {
            Some(r) => r,
            None => return,
        };
        self.input = cut_string(self.input.as_str(), from, to_inclusive + 1);
        let new_len = self.char_len();
        if new_len == 0 {
            self.cursor = 0;
        } else {
            self.cursor = if from < new_len - 1 { from } else { new_len - 1 };
        }
    }

    /// Copies into the register the characters that `motion` spans from the cursor,
    /// without moving the cursor: `w` to the end of the word (through the next word from
    /// a separator), `b` back to the start of the word.
    pub fn yank_with_motion(&mut self, motion: Motion)
        requires
            old(self).wf(),
        ensures
            final(self).wf(),
            final(self)@ == yanked_with_motion(old(self)@, motion),
    {
        let chars = chars_of(self.input.as_str());
        let len = chars.len();
        if len == 0 {
            self.register = String::new();
            return;
        }
        let start = if self.cursor < len - 1 { self.cursor } else { len - 1 };
        let (from, to_exclusive) = match motion {
            Motion::WordForward => {
                let end = if is_word_char(chars[start]) {
                    skip_word_from(&chars, start)
                } else {
                    let g = skip_gap_from(&chars, start);
                    skip_word_from(&chars, g)
                };
                let e = if end >= start + 1 { end } else { start + 1 };
                (start, if e < len { e } else { len })
            },
            Motion::WordBackward => {
                let begin = if start > 0 {
                    let g = back_gap_from(&chars, start);
                    back_word_from(&chars, g)
                } else {
                    start
                };
                (begin, start + 1)
            },
            _ => {
                let end = self.motion_target(motion);
                if start <= end {
                    (start, if end + 1 < len { end + 1 } else { len })
                } else {
                    (end, if start + 1 < len { start + 1 } else { len })
                }
            },
        };
        self.register = self.slice_char_range(from, to_exclusive);
    }

    /// Puts the register in after the cursor; the cursor lands on its last character.
    pub fn paste_after(&mut self)
        requires
            old(self).wf(),
        ensures
            final(self).wf(),
            final(self)@ == pasted_after(old(self)@),
    {
        let len = self.char_len();
        let insert_at = if len == 0 {
            0
        } else if self.cursor < len {
            self.cursor + 1
        } else {
            len
        };
        self.paste_at(insert_at);
    }

    /// Puts the register in before the cursor; the cursor lands on its last character.
    pub fn paste_before(&mut self)
        requires
            old(self).wf(),
        ensures
            final(self).wf(),
            final(self)@ == pasted_before(old(self)@),
    {
        let len = self.char_len();
        let insert_at = if self.cursor < len { self.cursor } else { len };
        self.paste_at(insert_at);
    }

    fn paste_at(&mut self, insert_at: usize)
        requires
            old(self).wf(),
            insert_at <= old(self)@.text.len(),
        ensures
            final(self).wf(),
            final(self)@ == pasted_at(old(self)@, insert_at as int),
    {
        let reg_len = self.register.as_str().unicode_len();
        if reg_len == 0 {
            return;
        }
        let len = self.char_len();
        self.insert_str_at_char_index(insert_at);
        let new_len = self.char_len();
        // on the last pasted character: just before the text that followed `insert_at`
        self.cursor = new_len - (len - insert_at) - 1;
        self.clamp_cursor_for_mode();
    }

    /// The motion that a key stands for in Normal and Visual mode.
    pub fn motion_from_key(code: Key) -> (r: Option<Motion>)
        ensures
            r == motion_of_key(code),
    {
        match code {
            Key::Left | Key::Char('h') => Some(Motion::Left),
            Key::Right | Key::Char('l') => Some(Motion::Right),
            Key::Char('0') => Some(Motion::LineStart),
            Key::Char('$') => Some(Motion::LineEnd),
            Key::Char('w') => Some(Motion::WordForward),
            Key::Char('b') => Some(Motion::WordBackward),
            _ => None,
        }
    }

    /// Handles one key in the current mode; what it asks of the owner comes back.
    pub fn handle_key_event(&mut self, key: Key) -> (r: EditorCommand)
        requires
            old(self).wf(),
        ensures
            final(self).wf(),
            (final(self)@, r) == step(old(self)@, key),
    {
        match self.mode {
            InputEditMode::Insert => self.handle_insert_key(key),
            InputEditMode::Normal => self.handle_normal_key(key),
            InputEditMode::Visual => self.handle_visual_key(key),
        }
    }

    fn handle_insert_key(&mut self, code: Key) -> (r: EditorCommand)
        requires
            old(self).wf(),
            old(self)@.mode == InputEditMode::Insert,
        ensures
            final(self).wf(),
            (final(self)@, r) == insert_step(old(self)@, code),
    {
        match code {
            Key::Esc => {
                self.switch_to_normal_mode();
                EditorCommand::NoOp
            },
            Key::Enter => EditorCommand::Submit,
            Key::Char(ch) => {
                self.enter_char(ch);
                EditorCommand::NoOp
            },
            Key::Backspace => {
                self.backspace();
                EditorCommand::NoOp
            },
            Key::Left => {
                self.move_insert_left();
                EditorCommand::NoOp
            },
            Key::Right => {
                self.move_insert_right();
                EditorCommand::NoOp
            },
            _ => EditorCommand::NoOp,
        }
    }

    fn handle_normal_key(&mut self, code: Key) -> (r: EditorCommand)
        requires
            old(self).wf(),
            old(self)@.mode == InputEditMode::Normal,
        ensures
            final(self).wf(),
            (final(self)@, r) == normal_step(old(self)@, code),
    {
        match code {
            Key::Esc => EditorCommand::ExitInputMode,
            Key::Enter => EditorCommand::Submit,
            Key::Tab => EditorCommand::IncrementFocus,
            Key::BackTab => EditorCommand::DecrementFocus,
            Key::Char('i') => {
                self.switch_to_insert_mode();
                EditorCommand::NoOp
            },
            Key::Char('a') => {
                let len = self.char_len();
                if len == 0 {
                    self.cursor = 0;
                } else if self.cursor < len {
                    self.cursor = self.cursor + 1;
                }
                self.switch_to_insert_mode();
                EditorCommand::NoOp
            },
            Key::Char('I') => {
                self.cursor = 0;
                self.switch_to_insert_mode();
                EditorCommand::NoOp
            },
            Key::Char('A') => {
                self.cursor = self.char_len();
                self.switch_to_insert_mode();
                EditorCommand::NoOp
            },
            Key::Char('x') => {
                self.delete_under_cursor();
                EditorCommand::NoOp
            },
            Key::Char('v') => {
                self.switch_to_visual_mode();
                EditorCommand::NoOp
            },
            Key::Char('p') => {
                self.paste_after();
                EditorCommand::NoOp
            },
            Key::Char('P') => {
                self.paste_before();
                EditorCommand::NoOp
            },
            other => {
                if let Some(motion) = Self::motion_from_key(other) {
                    self.apply_motion(motion);
                }
                EditorCommand::NoOp
            },
        }
    }

    fn handle_visual_key(&mut self, code: Key) -> (r: EditorCommand)
        requires
            old(self).wf(),
            old(self)@.mode == InputEditMode::Visual,
        ensures
            final(self).wf(),
            (final(self)@, r) == visual_step(old(self)@, code),
    {
        match code {
            Key::Esc | Key::Char('v') => {
                self.switch_to_normal_mode();
                EditorCommand::NoOp
            },
            Key::Enter => EditorCommand::Submit,
            Key::Char('y') => {
                let yanked_range = self.visual_range();
                self.yank_visual_selection();
                self.switch_to_normal_mode();
                match yanked_range {
                    Some((start, end)) => EditorCommand::Yanked { start, end },
                    None => EditorCommand::NoOp,
                }
            },
            Key::Char('d') | Key::Char('x') => {
                self.delete_visual_selection();
                self.switch_to_normal_mode();
                EditorCommand::NoOp
            },
            other => {
                if let Some(motion) = Self::motion_from_key(other) {
                    self.apply_motion(motion);
                }
                EditorCommand::NoOp
            },
        }
    }

    fn visual_range(&self) -> (r: Option<(usize, usize)>)
        ensures
            r == match visual_range_of(self@) {
                Some((a, b)) => Some((a as usize, b as usize)),
                None => None::<(usize, usize)>,
            },
            r matches Some((a, b)) ==> a <= b < self@.text.len() <= usize::MAX,
    {
        let len = self.char_len();
        if len == 0 {
            return None;
        }
        let anchor = match self.visual_anchor {
            Some(a) => if a < len - 1 { a } else { len - 1 },
            None => return None,
        };
        let cursor = if self.cursor < len - 1 { self.cursor } else { len - 1 };
        if anchor <= cursor {
            Some((anchor, cursor))
        } else {
            Some((cursor, anchor))
        }
    }

    fn motion_target(&self, motion: Motion) -> (r: usize)
        ensures
            r == motion_target_of(self@.text, self@.cursor, motion),
            r <= last_index(self@.text.len()),
    {
        let chars = chars_of(self.input.as_str());
        let len = chars.len();
        if len == 0 {
            return 0;
        }
        let i = if self.cursor < len - 1 { self.cursor } else { len - 1 };
        match motion {
            Motion::Left => if i == 0 { 0 } else { i - 1 },
            Motion::Right => if i + 1 < len - 1 { i + 1 } else { len - 1 },
            Motion::LineStart => 0,
            Motion::LineEnd => len - 1,
            Motion::WordForward => {
                let w = if is_word_char(chars[i]) { skip_word_from(&chars, i) } else { i };
                let j = skip_gap_from(&chars, w);
                if j >= len { len - 1 } else { j }
            },
            Motion::WordBackward => {
                if i == 0 {
                    return 0;
                }
                let g = back_gap_from(&chars, i - 1);
                back_word_from(&chars, g)
            },
        }
    }

    fn char_len(&self) -> (r: usize)
        ensures
            r == self@.text.len(),
    {
        self.input.as_str().unicode_len()
    }

    fn clamp_cursor_for_mode(&mut self)
        ensures
            final(self)@ == (EditorState { cursor: clamp_for(old(self)@.mode, old(self)@.text.len(), old(self)@.cursor as int), ..old(self)@ }),
    {
        let len = self.char_len();
        self.cursor = match self.mode {
            InputEditMode::Insert => if self.cursor < len { self.cursor } else { len },
            InputEditMode::Normal | InputEditMode::Visual => {
                if len == 0 {
                    0
                } else if self.cursor < len - 1 {
                    self.cursor
                } else {
                    len - 1
                }
            },
        };
    }

    /// Puts the register in at character position `char_index`.
    fn insert_str_at_char_index(&mut self, char_index: usize)
        requires
            char_index <= old(self)@.text.len(),
        ensures
            final(self)@ == (EditorState { text: spliced(old(self)@.text, char_index as int, old(self)@.register), ..old(self)@ }),
    {
        self.input = spliced_string(self.input.as_str(), char_index, self.register.as_str());
    }

    /// The characters `start_inclusive..end_exclusive`.
    fn slice_char_range(&self, start_inclusive: usize, end_exclusive: usize) -> (r: String)
        requires
            start_inclusive <= end_exclusive <= self@.text.len(),
        ensures
            r@ == self@.text.subrange(start_inclusive as int, end_exclusive as int),
    {
        String::from_str(self.input.as_str().substring_char(start_inclusive, end_exclusive))
    }
}

} // verus!
