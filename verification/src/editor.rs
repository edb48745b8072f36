//! Line editor: the state of the line being typed and of the history, and
//! what each key does to it. Reading keys and drawing on the terminal are
//! the caller's work; the editor says what to draw.

use vstd::prelude::*;
use crate::text::{chars_of, slice_chars, string_of, trim, trim_chars};

verus! {

/// The most lines that the history keeps in memory.
pub const MAX_HISTORY_SIZE: usize = 10000;

/// The key that was pressed, as far as the editor tells keys apart.
#[derive(Debug, Clone, Copy, PartialEq, Eq, Structural)]
pub enum KeyCode {
    Enter,
    Char(char),
    Home,
    End,
    Left,
    Right,
    Up,
    Down,
    Backspace,
    Delete,
    /// Any other key.
    Other,
}

/// The modifier keys held with a key.
#[derive(Debug, Clone, Copy, PartialEq, Eq, Structural)]
pub enum Modifiers {
    /// None at all.
    Plain,
    /// Shift alone.
    Shift,
    /// Control alone.
    Control,
    /// Any other combination.
    Other,
}

/// A key press.
#[derive(Debug, Clone, Copy, PartialEq, Eq, Structural)]
pub struct Key {
    pub code: KeyCode,
    pub modifiers: Modifiers,
}

/// What reading the line comes to after a key.
#[derive(Debug)]
pub enum KeyAction {
    /// Go on reading keys.
    Continue,
    /// The line was submitted.
    Submit(String),
    /// End of input.
    Eof,
}

/// The mathematical value of a [`KeyAction`].
pub enum KeyActionView {
    Continue,
    Submit(Seq<char>),
    Eof,
}

impl View for KeyAction {
    type V = KeyActionView;

    open spec fn view(&self) -> KeyActionView {
        match *self {
            KeyAction::Continue => KeyActionView::Continue,
            KeyAction::Submit(line) => KeyActionView::Submit(line@),
            KeyAction::Eof => KeyActionView::Eof,
        }
    }
}

/// What the caller shows on the terminal after a key.
#[derive(Debug, Clone, Copy, PartialEq, Eq, Structural)]
pub enum Display {
    /// Nothing changes.
    Nothing,
    /// Move to a new line.
    NewLine,
    /// Show `^C`, move to a new line and show the prompt again.
    Interrupted,
    /// Clear the screen, then draw prompt and line.
    ClearScreen,
    /// Draw prompt and line again and place the cursor.
    Redraw,
    /// Place the cursor; the text has not changed.
    MoveCursor,
}

/// The editor's state.
pub struct EditorView {
    /// The line being typed.
    pub buffer: Seq<char>,
    /// The cursor, as the number of characters before it.
    pub cursor: int,
    /// The history, oldest first.
    pub history: Seq<Seq<char>>,
    /// The place in the history that is shown; the length of the history
    /// while the line being typed is shown.
    pub history_idx: int,
    /// The line that was being typed when the history was entered.
    pub saved: Seq<char>,
}

/// Where the run of spaces that ends before `end` starts.
pub open spec fn spaces_start(buffer: Seq<char>, end: int) -> int
    decreases end,
{
    if end > 0 && end <= buffer.len() && buffer[end - 1] == ' ' {
        spaces_start(buffer, end - 1)
    } else {
        end
    }
}

/// Where the run of characters other than spaces that ends before `end`
/// starts.
pub open spec fn word_start(buffer: Seq<char>, end: int) -> int
    decreases end,
{
    if end > 0 && end <= buffer.len() && buffer[end - 1] != ' ' {
        word_start(buffer, end - 1)
    } else {
        end
    }
}

impl EditorView {
    pub open spec fn wf(self) -> bool {
        0 <= self.cursor <= self.buffer.len() && 0 <= self.history_idx <= self.history.len()
    }

    /// The state at the start of a line.
    pub open spec fn reset(self) -> EditorView {
        EditorView {
            buffer: Seq::empty(),
            cursor: 0,
            history_idx: self.history.len() as int,
            saved: Seq::empty(),
            ..self
        }
    }

    /// The character under the cursor deleted, if there is one.
    pub open spec fn delete_at_cursor(self) -> EditorView {
        if self.cursor < self.buffer.len() {
            EditorView { buffer: self.buffer.remove(self.cursor), ..self }
        } else {
            self
        }
    }

    /// The word before the cursor deleted, with the spaces between it
    /// and the cursor.
    pub open spec fn delete_word_before_cursor(self) -> EditorView {
        let start = word_start(self.buffer, spaces_start(self.buffer, self.cursor));
        EditorView {
            buffer: self.buffer.take(start) + self.buffer.skip(self.cursor),
            cursor: start,
            ..self
        }
    }

    /// One step back in the history. The first step saves the line being
    /// typed; at the oldest entry nothing changes.
    pub open spec fn history_prev(self) -> EditorView {
        if self.history.len() == 0 {
            self
        } else {
            let saved = if self.history_idx == self.history.len() {
                self.buffer
            } else {
                self.saved
            };
            if self.history_idx > 0 {
                let line = self.history[self.history_idx - 1];
                EditorView {
                    buffer: line,
                    cursor: line.len() as int,
                    history_idx: self.history_idx - 1,
                    saved,
                    ..self
                }
            } else {
                EditorView { saved, ..self }
            }
        }
    }

    /// One step forward in the history; past its end the saved line comes
    /// back.
    pub open spec fn history_next(self) -> EditorView {
        if self.history_idx >= self.history.len() {
            self
        } else {
            let idx = self.history_idx + 1;
            let line = if idx == self.history.len() {
                self.saved
            } else {
                self.history[idx]
            };
            EditorView { buffer: line, cursor: line.len() as int, history_idx: idx, ..self }
        }
    }

    /// The history after `line` was offered to it: trimmed; an empty line
    /// and a repetition of the newest entry are ignored; the oldest
    /// entries leave once there are more than [`MAX_HISTORY_SIZE`].
    pub open spec fn add_to_history(self, line: Seq<char>) -> EditorView {
        let trimmed = trim(line);
        if trimmed.len() == 0 || (self.history.len() > 0 && self.history.last() == trimmed) {
            self
        } else {
            let grown = self.history.push(trimmed);
            let kept = if grown.len() > MAX_HISTORY_SIZE {
                grown.skip(grown.len() - MAX_HISTORY_SIZE)
            } else {
                grown
            };
            EditorView {
                history: kept,
                history_idx: if self.history_idx > kept.len() {
                    kept.len() as int
                } else {
                    self.history_idx
                },
                ..self
            }
        }
    }

    /// Whether [`add_to_history`](Self::add_to_history) takes the line.
    pub open spec fn takes(self, line: Seq<char>) -> bool {
        trim(line).len() > 0 && !(self.history.len() > 0 && self.history.last() == trim(line))
    }

    /// The state, the action and what to show after a key.
    pub open spec fn handle_key(self, key: Key) -> (EditorView, KeyActionView, Display) {
        match (key.code, key.modifiers) {
            (KeyCode::Enter, _) => (self, KeyActionView::Submit(self.buffer), Display::NewLine),
            (KeyCode::Char('d'), Modifiers::Control) => {
                if self.buffer.len() == 0 {
                    (self, KeyActionView::Eof, Display::NewLine)
                } else {
                    (self.delete_at_cursor(), KeyActionView::Continue, Display::Redraw)
                }
            },
            (KeyCode::Char('c'), Modifiers::Control) => (
                self.reset(),
                KeyActionView::Continue,
                Display::Interrupted,
            ),
            (KeyCode::Char('l'), Modifiers::Control) => (
                self,
                KeyActionView::Continue,
                Display::ClearScreen,
            ),
            (KeyCode::Char('a'), Modifiers::Control) | (KeyCode::Home, _) => (
                EditorView { cursor: 0, ..self },
                KeyActionView::Continue,
                Display::MoveCursor,
            ),
            (KeyCode::Char('e'), Modifiers::Control) | (KeyCode::End, _) => (
                EditorView { cursor: self.buffer.len() as int, ..self },
                KeyActionView::Continue,
                Display::MoveCursor,
            ),
            (KeyCode::Char('k'), Modifiers::Control) => (
                EditorView { buffer: self.buffer.take(self.cursor), ..self },
                KeyActionView::Continue,
                Display::Redraw,
            ),
            (KeyCode::Char('u'), Modifiers::Control) => (
                EditorView { buffer: self.buffer.skip(self.cursor), cursor: 0, ..self },
                KeyActionView::Continue,
                Display::Redraw,
            ),
            (KeyCode::Char('w'), Modifiers::Control) => (
                self.delete_word_before_cursor(),
                KeyActionView::Continue,
                Display::Redraw,
            ),
            (KeyCode::Left, _) => {
                if self.cursor > 0 {
                    (
                        EditorView { cursor: self.cursor - 1, ..self },
                        KeyActionView::Continue,
                        Display::MoveCursor,
                    )
                } else {
                    (self, KeyActionView::Continue, Display::Nothing)
                }
            },
            (KeyCode::Right, _) => {
                if self.cursor < self.buffer.len() {
                    (
                        EditorView { cursor: self.cursor + 1, ..self },
                        KeyActionView::Continue,
                        Display::MoveCursor,
                    )
                } else {
                    (self, KeyActionView::Continue, Display::Nothing)
                }
            },
            (KeyCode::Up, _) => (self.history_prev(), KeyActionView::Continue, Display::Redraw),
            (KeyCode::Down, _) => (self.history_next(), KeyActionView::Continue, Display::Redraw),
            (KeyCode::Backspace, _) => {
                if self.cursor > 0 {
                    (
                        EditorView {
                            buffer: self.buffer.remove(self.cursor - 1),
                            cursor: self.cursor - 1,
                            ..self
                        },
                        KeyActionView::Continue,
                        Display::Redraw,
                    )
                } else {
                    (self, KeyActionView::Continue, Display::Nothing)
                }
            },
            (KeyCode::Delete, _) => (
                self.delete_at_cursor(),
                KeyActionView::Continue,
                Display::Redraw,
            ),
            (KeyCode::Char(c), Modifiers::Plain) | (KeyCode::Char(c), Modifiers::Shift) => (
                EditorView {
                    buffer: self.buffer.insert(self.cursor, c),
                    cursor: self.cursor + 1,
                    ..self
                },
                KeyActionView::Continue,
                Display::Redraw,
            ),
            _ => (self, KeyActionView::Continue, Display::Nothing),
        }
    }
}

/// The non-empty lines of the text from `i` on, after `lines` were read
/// and `current` was begun. A line ends at a newline, with the carriage
/// return before it if there is one.
pub open spec fn history_lines_from(
    text: Seq<char>,
    i: int,
    lines: Seq<Seq<char>>,
    current: Seq<char>,
) -> Seq<Seq<char>>
    decreases text.len() - i,
{
    if i < 0 || i >= text.len() {
        if current.len() > 0 {
            lines.push(current)
        } else {
            lines
        }
    } else if text[i] == '\n' {
        let line = if current.len() > 0 && current.last() == '\r' {
            current.drop_last()
        } else {
            current
        };
        history_lines_from(
            text,
            i + 1,
            if line.len() > 0 {
                lines.push(line)
            } else {
                lines
            },
            Seq::empty(),
        )
    } else {
        history_lines_from(text, i + 1, lines, current.push(text[i]))
    }
}

/// The history that the text of a history file holds: its non-empty
/// lines.
pub open spec fn parse_history_spec(text: Seq<char>) -> Seq<Seq<char>> {
    history_lines_from(text, 0, Seq::empty(), Seq::empty())
}

/// Reads the text of a history file: one command for each non-empty
/// line.
pub fn parse_history(contents: &str) -> (r: Vec<String>)
    ensures
        r.deep_view() == parse_history_spec(contents@),
{
    let text = chars_of(contents);
    let mut lines: Vec<String> = Vec::new();
    let mut current: Vec<char> = Vec::new();
    let mut i: usize = 0;
    assert(lines.deep_view() =~= Seq::<Seq<char>>::empty());
    while i < text.len()
        invariant
            i <= text.len(),
            text@ == contents@,
            history_lines_from(text@, i as int, lines.deep_view(), current@) == parse_history_spec(
                text@,
            ),
        decreases text.len() - i,
    {
        let ghost lines0 = lines.deep_view();
        if text[i] == '\n' {
            let n = current.len();
            if n > 0 && current[n - 1] == '\r' {
                current.pop();
            }
            if current.len() > 0 {
                lines.push(string_of(&current));
                assert(lines.deep_view() =~= lines0.push(current@));
            }
            current = Vec::new();
            assert(current@ =~= Seq::<char>::empty());
        } else {
            current.push(text[i]);
        }
        i += 1;
    }
    if current.len() > 0 {
        let ghost lines0 = lines.deep_view();
        lines.push(string_of(&current));
        assert(lines.deep_view() =~= lines0.push(current@));
    }
    lines
}

/// A line editor with cursor movement, Emacs key bindings and history.
pub struct LineEditor {
    buffer: Vec<char>,
    cursor: usize,
    history: Vec<String>,
    history_idx: usize,
    saved_buffer: Vec<char>,
}

impl View for LineEditor {
    type V = EditorView;

    closed spec fn view(&self) -> EditorView {
        EditorView {
            buffer: self.buffer@,
            cursor: self.cursor as int,
            history: self.history.deep_view(),
            history_idx: self.history_idx as int,
            saved: self.saved_buffer@,
        }
    }
}

impl LineEditor {
    #[verifier::type_invariant]
    spec fn inv(self) -> bool {
        self@.wf()
    }

    /// A new editor with the given history, oldest entry first.
    pub fn new(history: Vec<String>) -> (r: LineEditor)
        ensures
            r@ == (EditorView {
                buffer: Seq::empty(),
                cursor: 0,
                history: history.deep_view(),
                history_idx: history.len() as int,
                saved: Seq::empty(),
            }),
            r@.wf(),
    {
        let history_idx = history.len();
        assert(history.deep_view().len() == history.len());
        LineEditor {
            buffer: Vec::new(),
            cursor: 0,
            history,
            history_idx,
            saved_buffer: Vec::new(),
        }
    }

    /// Takes the state out, leaving an editor without text or history.
    fn take(&mut self) -> (r: LineEditor)
        ensures
            r@ == old(self)@,
            r@.wf(),
    {
        proof {
            use_type_invariant(&*self);
        }
        let mut taken = LineEditor::new(Vec::new());
        std::mem::swap(self, &mut taken);
        taken
    }

    /// The line being typed.
    pub fn buffer(&self) -> (r: String)
        ensures
            r@ == self@.buffer,
    {
        string_of(&self.buffer)
    }

    /// The cursor, as the number of characters before it.
    pub fn cursor(&self) -> (r: usize)
        ensures
            r == self@.cursor,
            self@.wf(),
    {
        proof {
            use_type_invariant(self);
        }
        self.cursor
    }

    /// The history, oldest entry first.
    pub fn history(&self) -> (r: &Vec<String>)
        ensures
            r.deep_view() == self@.history,
    {
        &self.history
    }

    /// The line that was being typed when the history was entered.
    pub fn saved_buffer(&self) -> (r: String)
        ensures
            r@ == self@.saved,
    {
        string_of(&self.saved_buffer)
    }

    /// Replaces the line being typed and places the cursor at its end.
    pub fn set_buffer(&mut self, line: &str)
        ensures
            final(self)@ == (EditorView {
                buffer: line@,
                cursor: line@.len() as int,
                ..old(self)@
            }),
    {
        proof {
            use_type_invariant(&*self);
        }
        let chars = chars_of(line);
        let old_self = self.take();
        *self = LineEditor { cursor: chars.len(), buffer: chars, ..old_self };
    }

    /// Adds `line` to the history. Empty lines (after trimming) and
    /// repetitions of the newest entry are ignored; the history keeps the
    /// newest [`MAX_HISTORY_SIZE`] entries. Returns the entry that was
    /// added, which belongs at the end of the history file.
    pub fn add_to_history(&mut self, line: &str) -> (added: Option<String>)
        ensures
            final(self)@ == old(self)@.add_to_history(line@),
            match added {
                Some(entry) => old(self)@.takes(line@) && entry@ == trim(line@),
                None => !old(self)@.takes(line@),
            },
    {
        proof {
            use_type_invariant(&*self);
        }
        let ghost before = self@;
        let chars = chars_of(line);
        let trimmed = trim_chars(&chars);
        if trimmed.len() == 0 {
            return None;
        }
        let entry = string_of(&trimmed);
        let n = self.history.len();
        assert(before.history.len() == n);
        if n > 0 {
            assert(before.history.last() == self.history[n - 1]@);
            if crate::text::str_eq(self.history[n - 1].as_str(), entry.as_str()) {
                return None;
            }
        }
        let old_self = self.take();
        let mut history = old_self.history;
        history.push(entry.clone());
        assert(history.deep_view() =~= before.history.push(trimmed@));
        let ghost grown = history.deep_view();
        if history.len() > MAX_HISTORY_SIZE {
            let excess = history.len() - MAX_HISTORY_SIZE;
            let mut kept: Vec<String> = Vec::new();
            let mut i: usize = excess;
            while i < history.len()
                invariant
                    excess <= i <= history.len(),
                    grown == history.deep_view(),
                    kept.len() == i - excess,
                    forall|k: int| 0 <= k < kept.len() ==> (#[trigger] kept[k])@ == grown[k + excess],
                decreases history.len() - i,
            {
                kept.push(history[i].clone());
                i += 1;
            }
            assert(kept.deep_view() =~= grown.skip(excess as int));
            history = kept;
        }
        assert(history.deep_view().len() == history.len());
        let history_idx = if old_self.history_idx > history.len() {
            history.len()
        } else {
            old_self.history_idx
        };
        *self = LineEditor {
            buffer: old_self.buffer,
            cursor: old_self.cursor,
            history,
            history_idx,
            saved_buffer: old_self.saved_buffer,
        };
        Some(entry)
    }

    /// Starts a new line: empties the buffer and leaves the history.
    pub fn reset_state(&mut self)
        ensures
            final(self)@ == old(self)@.reset(),
    {
        let old_self = self.take();
        assert(old_self.history.deep_view().len() == old_self.history.len());
        *self = LineEditor {
            buffer: Vec::new(),
            cursor: 0,
            history_idx: old_self.history.len(),
            history: old_self.history,
            saved_buffer: Vec::new(),
        };
    }

    /// Deletes the character under the cursor.
    pub fn delete_at_cursor(&mut self)
        ensures
            final(self)@ == old(self)@.delete_at_cursor(),
    {
        proof {
            use_type_invariant(&*self);
        }
        if self.cursor < self.buffer.len() {
            let old_self = self.take();
            let mut buffer = old_self.buffer;
            buffer.remove(old_self.cursor);
            *self = LineEditor {
                buffer,
                cursor: old_self.cursor,
                history: old_self.history,
                history_idx: old_self.history_idx,
                saved_buffer: old_self.saved_buffer,
            };
        }
    }

    /// Deletes the word before the cursor, with the spaces between the
    /// word and the cursor.
    pub fn delete_word_before_cursor(&mut self)
        ensures
            final(self)@ == old(self)@.delete_word_before_cursor(),
    {
        proof {
            use_type_invariant(&*self);
        }
        let ghost before = self@;
        let mut end = self.cursor;
        while end > 0 && self.buffer[end - 1] == ' '
            invariant
                end <= self.cursor <= self.buffer.len(),
                self@ == before,
                spaces_start(self.buffer@, end as int) == spaces_start(
                    self.buffer@,
                    self.cursor as int,
                ),
            decreases end,
        {
            end -= 1;
        }
        let mut start = end;
        while start > 0 && self.buffer[start - 1] != ' '
            invariant
                start <= end <= self.buffer.len(),
                self@ == before,
                word_start(self.buffer@, start as int) == word_start(self.buffer@, end as int),
            decreases start,
        {
            start -= 1;
        }
        let mut buffer = slice_chars(&self.buffer, 0, start);
        let tail = slice_chars(&self.buffer, self.cursor, self.buffer.len());
        crate::text::push_chars(&mut buffer, &tail);
        assert(buffer@ =~= before.buffer.take(start as int) + before.buffer.skip(before.cursor));
        let old_self = self.take();
        *self = LineEditor { buffer, cursor: start, ..old_self };
    }

    /// Steps back in the history.
    pub fn history_prev(&mut self)
        ensures
            final(self)@ == old(self)@.history_prev(),
    {
        proof {
            use_type_invariant(&*self);
        }
        assert(self.history.deep_view().len() == self.history.len());
        if self.history.len() == 0 {
            return ;
        }
        if self.history_idx == self.history.len() {
            let mut saved: Vec<char> = Vec::new();
            crate::text::push_chars(&mut saved, &self.buffer);
            assert(saved@ =~= self.buffer@);
            self.saved_buffer = saved;
        }
        if self.history_idx > 0 {
            let idx = self.history_idx - 1;
            assert(self.history.deep_view()[idx as int] == self.history[idx as int]@);
            let line = chars_of(self.history[idx].as_str());
            let old_self = self.take();
            *self = LineEditor { history_idx: idx, cursor: line.len(), buffer: line, ..old_self };
        }
    }

    /// Steps forward in the history.
    pub fn history_next(&mut self)
        ensures
            final(self)@ == old(self)@.history_next(),
    {
        proof {
            use_type_invariant(&*self);
        }
        assert(self.history.deep_view().len() == self.history.len());
        if self.history_idx >= self.history.len() {
            return ;
        }
        let idx = self.history_idx + 1;
        let line = if idx == self.history.len() {
            let mut saved: Vec<char> = Vec::new();
            crate::text::push_chars(&mut saved, &self.saved_buffer);
            assert(saved@ =~= self.saved_buffer@);
            saved
        } else {
            assert(self.history.deep_view()[idx as int] == self.history[idx as int]@);
            chars_of(self.history[idx].as_str())
        };
        let old_self = self.take();
        *self = LineEditor { history_idx: idx, cursor: line.len(), buffer: line, ..old_self };
    }

    /// Takes a key press: changes the line, the cursor and the place in
    /// the history, and says whether the line is complete and what the
    /// terminal is to show.
    pub fn handle_key(&mut self, key: Key) -> (r: (KeyAction, Display))
        ensures
            final(self)@ == old(self)@.handle_key(key).0,
            r.0@ == old(self)@.handle_key(key).1,
            r.1 == old(self)@.handle_key(key).2,
    {
        proof {
            use_type_invariant(&*self);
        }
        let ghost before = self@;
        match (key.code, key.modifiers) {
            (KeyCode::Enter, _) => (KeyAction::Submit(string_of(&self.buffer)), Display::NewLine),
            (KeyCode::Char('d'), Modifiers::Control) => {
                if self.buffer.len() == 0 {
                    (KeyAction::Eof, Display::NewLine)
                } else {
                    self.delete_at_cursor();
                    (KeyAction::Continue, Display::Redraw)
                }
            },
            (KeyCode::Char('c'), Modifiers::Control) => {
                self.reset_state();
                (KeyAction::Continue, Display::Interrupted)
            },
            (KeyCode::Char('l'), Modifiers::Control) => (KeyAction::Continue, Display::ClearScreen),
            (KeyCode::Char('a'), Modifiers::Control) | (KeyCode::Home, _) => {
                self.cursor = 0;
                (KeyAction::Continue, Display::MoveCursor)
            },
            (KeyCode::Char('e'), Modifiers::Control) | (KeyCode::End, _) => {
                self.cursor = self.buffer.len();
                (KeyAction::Continue, Display::MoveCursor)
            },
            (KeyCode::Char('k'), Modifiers::Control) => {
                let kept = slice_chars(&self.buffer, 0, self.cursor);
                assert(kept@ =~= before.buffer.take(before.cursor));
                let old_self = self.take();
                *self = LineEditor { buffer: kept, ..old_self };
                (KeyAction::Continue, Display::Redraw)
            },
            (KeyCode::Char('u'), Modifiers::Control) => {
                let kept = slice_chars(&self.buffer, self.cursor, self.buffer.len());
                assert(kept@ =~= before.buffer.skip(before.cursor));
                let old_self = self.take();
                *self = LineEditor { buffer: kept, cursor: 0, ..old_self };
                (KeyAction::Continue, Display::Redraw)
            },
            (KeyCode::Char('w'), Modifiers::Control) => {
                self.delete_word_before_cursor();
                (KeyAction::Continue, Display::Redraw)
            },
            (KeyCode::Left, _) => {
                if self.cursor > 0 {
                    self.cursor = self.cursor - 1;
                    (KeyAction::Continue, Display::MoveCursor)
                } else {
                    (KeyAction::Continue, Display::Nothing)
                }
            },
            (KeyCode::Right, _) => {
                if self.cursor < self.buffer.len() {
                    self.cursor = self.cursor + 1;
                    (KeyAction::Continue, Display::MoveCursor)
                } else {
                    (KeyAction::Continue, Display::Nothing)
                }
            },
            (KeyCode::Up, _) => {
                self.history_prev();
                (KeyAction::Continue, Display::Redraw)
            },
            (KeyCode::Down, _) => {
                self.history_next();
                (KeyAction::Continue, Display::Redraw)
            },
            (KeyCode::Backspace, _) => {
                if self.cursor > 0 {
                    let at = self.cursor - 1;
                    let old_self = self.take();
                    let mut buffer = old_self.buffer;
                    buffer.remove(at);
                    *self = LineEditor {
                        buffer,
                        cursor: at,
                        history: old_self.history,
                        history_idx: old_self.history_idx,
                        saved_buffer: old_self.saved_buffer,
                    };
                    (KeyAction::Continue, Display::Redraw)
                } else {
                    (KeyAction::Continue, Display::Nothing)
                }
            },
            (KeyCode::Delete, _) => {
                self.delete_at_cursor();
                (KeyAction::Continue, Display::Redraw)
            },
            (KeyCode::Char(c), Modifiers::Plain) | (KeyCode::Char(c), Modifiers::Shift) => {
                let at = self.cursor;
                let old_self = self.take();
                let mut buffer = old_self.buffer;
                buffer.insert(at, c);
                assert(at < buffer.len());
                *self = LineEditor {
                    buffer,
                    cursor: at + 1,
                    history: old_self.history,
                    history_idx: old_self.history_idx,
                    saved_buffer: old_self.saved_buffer,
                };
                (KeyAction::Continue, Display::Redraw)
            },
            _ => (KeyAction::Continue, Display::Nothing),
        }
    }

    /// The column of the cursor on the terminal, after a prompt of
    /// `prompt_width` characters; `None` where it does not fit the
    /// terminal's 16-bit columns.
    pub fn cursor_column(&self, prompt_width: usize) -> (r: Option<u16>)
        ensures
            r == if prompt_width + self@.cursor <= u16::MAX {
                Some((prompt_width + self@.cursor) as u16)
            } else {
                None
            },
    {
        if prompt_width <= 0xffff && self.cursor <= 0xffff - prompt_width {
            Some((prompt_width + self.cursor) as u16)
        } else {
            None
        }
    }
}

} // verus!
