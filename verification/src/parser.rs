//! Tokenizer: splits an input line into words made of quote-tagged
//! segments, and splits a word list into pipeline stages.
//!
//! The tokenizer is specified as a small automaton over the characters of
//! the line ([`lex_step`], folded by [`lex_from`]); [`tokenize`] is proved to
//! compute exactly what the automaton yields.

use vstd::prelude::*;
use vstd::string::StringExecFns;
use crate::text::{chars_of, string_of};

verus! {

/// A segment of a word, tagged with its quote context.
/// The expander uses the tag to decide which expansions apply.
#[derive(Debug, Clone, PartialEq)]
pub enum WordSegment {
    /// Unquoted text: all expansions apply (tilde, variable, glob, word split).
    Unquoted(String),
    /// Double-quoted text: variable expansion only, no glob or word split.
    DoubleQuoted(String),
    /// Single-quoted text: no expansion at all, everything literal.
    SingleQuoted(String),
}

/// The mathematical value of a [`WordSegment`].
pub enum Segment {
    Unquoted(Seq<char>),
    DoubleQuoted(Seq<char>),
    SingleQuoted(Seq<char>),
}

impl Segment {
    /// The literal text the segment carries.
    pub open spec fn text(self) -> Seq<char> {
        match self {
            Segment::Unquoted(s) => s,
            Segment::DoubleQuoted(s) => s,
            Segment::SingleQuoted(s) => s,
        }
    }
}

impl View for WordSegment {
    type V = Segment;

    open spec fn view(&self) -> Segment {
        match *self {
            WordSegment::Unquoted(s) => Segment::Unquoted(s@),
            WordSegment::DoubleQuoted(s) => Segment::DoubleQuoted(s@),
            WordSegment::SingleQuoted(s) => Segment::SingleQuoted(s@),
        }
    }
}

impl DeepView for WordSegment {
    type V = Segment;

    open spec fn deep_view(&self) -> Segment {
        self@
    }
}

/// A single word (argument) made up of one or more segments.
/// Mixed quoting like `he"llo"'world'` produces several segments in one word.
pub type Word = Vec<WordSegment>;

/// A parsed command with a program name and its arguments.
#[derive(Debug)]
pub struct Command {
    pub program: String,
    pub args: Vec<String>,
}

/// The mathematical value of a [`Command`].
pub struct CommandView {
    pub program: Seq<char>,
    pub args: Seq<Seq<char>>,
}

impl View for Command {
    type V = CommandView;

    open spec fn view(&self) -> CommandView {
        CommandView { program: self.program@, args: self.args.deep_view() }
    }
}

impl DeepView for Command {
    type V = CommandView;

    open spec fn deep_view(&self) -> CommandView {
        self@
    }
}

// ── The automaton ────────────────────────────────────────────────────────

/// Where the tokenizer stands between two characters.
#[derive(Clone, Copy, Debug, PartialEq, Eq)]
pub enum Mode {
    /// Between tokens: blanks are skipped.
    Normal,
    /// Building a word: a blank ends it.
    InWord,
    /// Inside double quotes.
    InDoubleQuote,
    /// Inside single quotes.
    InSingleQuote,
}

/// The automaton's state: finished words, the word and the segment under
/// construction, and the mode.
pub struct LexState {
    pub words: Seq<Seq<Segment>>,
    pub word: Seq<Segment>,
    pub seg: Seq<char>,
    pub mode: Mode,
}

pub open spec fn is_blank(c: char) -> bool {
    c == ' ' || c == '\t'
}

pub open spec fn is_ascii_digit(c: char) -> bool {
    '0' <= c && c <= '9'
}

/// Number of characters of the redirect operator that starts at `i`, where
/// `s[i]` is `>` or `<`: one of `>`, `>>`, `>&`, `>&N`, `<`, `<<`, `<<<`.
pub open spec fn redirect_op_len(s: Seq<char>, i: int) -> int {
    if s[i] == '>' {
        if i + 1 < s.len() && s[i + 1] == '>' {
            2
        } else if i + 1 < s.len() && s[i + 1] == '&' {
            if i + 2 < s.len() && is_ascii_digit(s[i + 2]) {
                3
            } else {
                2
            }
        } else {
            1
        }
    } else if s[i] == '<' {
        if i + 1 < s.len() && s[i + 1] == '<' {
            if i + 2 < s.len() && s[i + 2] == '<' {
                3
            } else {
                2
            }
        } else {
            1
        }
    } else {
        1
    }
}

/// The text of the redirect operator that starts at `i`.
pub open spec fn redirect_op(s: Seq<char>, i: int) -> Seq<char> {
    s.subrange(i, i + redirect_op_len(s, i))
}

/// A word that consists of one unquoted segment.
pub open spec fn bare_word(text: Seq<char>) -> Seq<Segment> {
    seq![Segment::Unquoted(text)]
}

/// The character that a backslash at `i` makes literal: the one after it,
/// or the backslash itself at the end of the line.
pub open spec fn escaped_char(s: Seq<char>, i: int) -> char {
    if i + 1 < s.len() {
        s[i + 1]
    } else {
        '\\'
    }
}

/// Whether a backslash inside double quotes escapes the character `c`.
pub open spec fn escapable_in_double_quotes(c: char) -> bool {
    c == '"' || c == '\\' || c == '$' || c == '`'
}

impl LexState {
    pub open spec fn init() -> LexState {
        LexState { words: Seq::empty(), word: Seq::empty(), seg: Seq::empty(), mode: Mode::Normal }
    }

    /// Closes the unquoted segment under construction, if it holds anything.
    pub open spec fn flush_seg(self) -> LexState {
        if self.seg.len() > 0 {
            LexState { word: self.word.push(Segment::Unquoted(self.seg)), seg: Seq::empty(), ..self }
        } else {
            self
        }
    }

    /// Closes the word under construction, if it holds any segment.
    pub open spec fn flush_word(self) -> LexState {
        if self.word.len() > 0 {
            LexState { words: self.words.push(self.word), word: Seq::empty(), ..self }
        } else {
            self
        }
    }

    pub open spec fn push_seg(self, seg: Segment) -> LexState {
        LexState { word: self.word.push(seg), ..self }
    }

    pub open spec fn push_char(self, c: char) -> LexState {
        LexState { seg: self.seg.push(c), ..self }
    }

    /// Emits an operator as a word of its own.
    pub open spec fn emit(self, op: Seq<char>) -> LexState {
        LexState { words: self.words.push(bare_word(op)), ..self }
    }

    pub open spec fn with_mode(self, mode: Mode) -> LexState {
        LexState { mode, ..self }
    }

    /// Whether a `>` met while building a word merges with a one-digit
    /// descriptor before it (`2>` is one token, `12>` and `a2>` are not).
    pub open spec fn has_fd_prefix(self, c: char) -> bool {
        c == '>' && self.word.len() == 0 && self.seg.len() == 1 && is_ascii_digit(self.seg[0])
    }
}

/// Number of characters that the automaton consumes at position `i`.
pub open spec fn lex_width(s: Seq<char>, i: int, st: LexState) -> int {
    let c = s[i];
    match st.mode {
        Mode::Normal | Mode::InWord => {
            if c == '\\' {
                if i + 1 < s.len() {
                    2
                } else {
                    1
                }
            } else if c == '>' || c == '<' {
                redirect_op_len(s, i)
            } else {
                1
            }
        },
        Mode::InDoubleQuote => {
            if c == '\\' && i + 1 < s.len() && escapable_in_double_quotes(s[i + 1]) {
                2
            } else {
                1
            }
        },
        Mode::InSingleQuote => 1,
    }
}

/// The automaton's state after it has read the character at position `i`
/// (and what that character takes with it).
pub open spec fn lex_step(s: Seq<char>, i: int, st: LexState) -> LexState {
    let c = s[i];
    match st.mode {
        Mode::Normal => {
            if is_blank(c) {
                st
            } else if c == '"' {
                st.with_mode(Mode::InDoubleQuote)
            } else if c == '\'' {
                st.with_mode(Mode::InSingleQuote)
            } else if c == '\\' {
                st.push_seg(Segment::SingleQuoted(seq![escaped_char(s, i)])).with_mode(Mode::InWord)
            } else if c == '|' || c == '&' {
                st.emit(seq![c])
            } else if c == '>' || c == '<' {
                st.emit(redirect_op(s, i))
            } else {
                st.push_char(c).with_mode(Mode::InWord)
            }
        },
        Mode::InWord => {
            if is_blank(c) {
                st.flush_seg().flush_word().with_mode(Mode::Normal)
            } else if c == '"' {
                st.flush_seg().with_mode(Mode::InDoubleQuote)
            } else if c == '\'' {
                st.flush_seg().with_mode(Mode::InSingleQuote)
            } else if c == '\\' {
                st.flush_seg().push_seg(Segment::SingleQuoted(seq![escaped_char(s, i)]))
            } else if c == '|' || c == '&' {
                st.flush_seg().flush_word().emit(seq![c]).with_mode(Mode::Normal)
            } else if c == '>' || c == '<' {
                if st.has_fd_prefix(c) {
                    LexState { seg: Seq::empty(), ..st }.emit(st.seg + redirect_op(s, i)).with_mode(
                        Mode::Normal,
                    )
                } else {
                    st.flush_seg().flush_word().emit(redirect_op(s, i)).with_mode(Mode::Normal)
                }
            } else {
                st.push_char(c)
            }
        },
        Mode::InDoubleQuote => {
            if c == '"' {
                LexState { seg: Seq::empty(), ..st }.push_seg(Segment::DoubleQuoted(st.seg)).with_mode(
                    Mode::InWord,
                )
            } else if c == '\\' && i + 1 < s.len() && escapable_in_double_quotes(s[i + 1]) {
                st.push_char(s[i + 1])
            } else {
                st.push_char(c)
            }
        },
        Mode::InSingleQuote => {
            if c == '\'' {
                LexState { seg: Seq::empty(), ..st }.push_seg(Segment::SingleQuoted(st.seg)).with_mode(
                    Mode::InWord,
                )
            } else {
                st.push_char(c)
            }
        },
    }
}

/// The automaton's state at the end of the line, started in `st` at `i`.
pub open spec fn lex_from(s: Seq<char>, i: int, st: LexState) -> LexState
    decreases s.len() - i,
{
    if 0 <= i < s.len() {
        lex_from(s, i + lex_width(s, i, st), lex_step(s, i, st))
    } else {
        st
    }
}

/// Why a line cannot be tokenized.
pub enum LexError {
    UnterminatedDoubleQuote,
    UnterminatedSingleQuote,
}

/// The words of the line `s`, or the reason why it has none: a quote that
/// is still open at the end of the line.
pub open spec fn tokenize_spec(s: Seq<char>) -> Result<Seq<Seq<Segment>>, LexError> {
    let end = lex_from(s, 0, LexState::init());
    match end.mode {
        Mode::Normal => Ok(end.words),
        Mode::InWord => Ok(end.flush_seg().flush_word().words),
        Mode::InDoubleQuote => Err(LexError::UnterminatedDoubleQuote),
        Mode::InSingleQuote => Err(LexError::UnterminatedSingleQuote),
    }
}

/// The message that reports a [`LexError`].
pub open spec fn lex_error_message(e: LexError) -> Seq<char> {
    match e {
        LexError::UnterminatedDoubleQuote => "jsh: syntax error: unterminated double quote"@,
        LexError::UnterminatedSingleQuote => "jsh: syntax error: unterminated single quote"@,
    }
}

// ── Executable tokenizer ─────────────────────────────────────────────────

/// Copies a segment.
pub fn clone_segment(s: &WordSegment) -> (r: WordSegment)
    ensures
        r@ == s@,
{
    match s {
        WordSegment::Unquoted(t) => WordSegment::Unquoted(t.clone()),
        WordSegment::DoubleQuoted(t) => WordSegment::DoubleQuoted(t.clone()),
        WordSegment::SingleQuoted(t) => WordSegment::SingleQuoted(t.clone()),
    }
}

/// Copies a word.
pub fn clone_word(w: &Word) -> (r: Word)
    ensures
        r.deep_view() == w.deep_view(),
{
    let mut out: Vec<WordSegment> = Vec::new();
    let mut i: usize = 0;
    while i < w.len()
        invariant
            i <= w.len(),
            out.len() == i,
            forall|j: int| 0 <= j < i ==> out[j]@ == w[j]@,
        decreases w.len() - i,
    {
        out.push(clone_segment(&w[i]));
        i += 1;
    }
    assert(out.deep_view() =~= w.deep_view());
    out
}

fn ascii_digit(c: char) -> (r: bool)
    ensures
        r == is_ascii_digit(c),
{
    '0' <= c && c <= '9'
}

/// Reads the redirect operator that starts at `start`, where the character
/// is `>` or `<`. Handles the multi-character operators `>>`, `>&`, `>&N`,
/// `<<` and `<<<`.
fn consume_redirect_op(chars: &Vec<char>, start: usize) -> (op: Vec<char>)
    requires
        start < chars.len(),
    ensures
        op@ == redirect_op(chars@, start as int),
        op@.len() == redirect_op_len(chars@, start as int),
        1 <= op@.len() <= 3,
        start + op@.len() <= chars.len(),
{
    let first = chars[start];
    let n = chars.len();
    let mut op: Vec<char> = Vec::new();
    op.push(first);
    if first == '>' {
        if start + 1 < n && chars[start + 1] == '>' {
            op.push('>');
        } else if start + 1 < n && chars[start + 1] == '&' {
            op.push('&');
            if start + 2 < n && ascii_digit(chars[start + 2]) {
                op.push(chars[start + 2]);
            }
        }
    } else if first == '<' {
        if start + 1 < n && chars[start + 1] == '<' {
            op.push('<');
            if start + 2 < n && chars[start + 2] == '<' {
                op.push('<');
            }
        }
    }
    assert(op@ =~= redirect_op(chars@, start as int));
    op
}

/// The tokenizer's working state.
struct Lexer {
    words: Vec<Word>,
    word: Word,
    seg: Vec<char>,
    mode: Mode,
}

impl View for Lexer {
    type V = LexState;

    closed spec fn view(&self) -> LexState {
        LexState {
            words: self.words.deep_view(),
            word: self.word.deep_view(),
            seg: self.seg@,
            mode: self.mode,
        }
    }
}

impl Lexer {
    fn new() -> (r: Lexer)
        ensures
            r@ == LexState::init(),
    {
        let r = Lexer { words: Vec::new(), word: Vec::new(), seg: Vec::new(), mode: Mode::Normal };
        assert(r.words.deep_view() =~= Seq::empty());
        assert(r.word.deep_view() =~= Seq::empty());
        r
    }

    fn push_seg(&mut self, seg: WordSegment)
        ensures
            final(self)@ == old(self)@.push_seg(seg@),
    {
        self.word.push(seg);
        assert(self.word.deep_view() =~= old(self).word.deep_view().push(seg@));
    }

    fn flush_seg(&mut self)
        ensures
            final(self)@ == old(self)@.flush_seg(),
    {
        if self.seg.len() > 0 {
            let text = string_of(&self.seg);
            self.seg = Vec::new();
            self.push_seg(WordSegment::Unquoted(text));
        }
    }

    fn flush_word(&mut self)
        ensures
            final(self)@ == old(self)@.flush_word(),
    {
        if self.word.len() > 0 {
            let mut w: Word = Vec::new();
            std::mem::swap(&mut self.word, &mut w);
            self.words.push(w);
            assert(self.words.deep_view() =~= old(self).words.deep_view().push(
                old(self).word.deep_view(),
            ));
            assert(self.word.deep_view() =~= Seq::empty());
        }
    }

    fn emit(&mut self, op: &Vec<char>)
        ensures
            final(self)@ == old(self)@.emit(op@),
    {
        let mut w: Word = Vec::new();
        w.push(WordSegment::Unquoted(string_of(op)));
        assert(w.deep_view() =~= bare_word(op@));
        self.words.push(w);
        assert(self.words.deep_view() =~= old(self).words.deep_view().push(bare_word(op@)));
    }

    /// Takes the segment under construction out, leaving it empty.
    fn take_seg(&mut self) -> (r: Vec<char>)
        ensures
            r@ == old(self)@.seg,
            final(self)@ == (LexState { seg: Seq::empty(), ..old(self)@ }),
    {
        let mut s: Vec<char> = Vec::new();
        std::mem::swap(&mut self.seg, &mut s);
        s
    }

    fn escaped(chars: &Vec<char>, i: usize) -> (r: WordSegment)
        requires
            i < chars.len(),
        ensures
            r@ == Segment::SingleQuoted(seq![escaped_char(chars@, i as int)]),
    {
        let c = if i + 1 < chars.len() {
            chars[i + 1]
        } else {
            '\\'
        };
        let mut one: Vec<char> = Vec::new();
        one.push(c);
        assert(one@ =~= seq![c]);
        WordSegment::SingleQuoted(string_of(&one))
    }

    fn step_normal(&mut self, chars: &Vec<char>, i: usize) -> (n: usize)
        requires
            i < chars.len(),
            old(self).mode == Mode::Normal,
        ensures
            final(self)@ == lex_step(chars@, i as int, old(self)@),
            n == lex_width(chars@, i as int, old(self)@),
            1 <= n,
            i + n <= chars.len(),
    {
        let c = chars[i];
        if c == ' ' || c == '\t' {
            1
        } else if c == '"' {
            self.mode = Mode::InDoubleQuote;
            1
        } else if c == '\'' {
            self.mode = Mode::InSingleQuote;
            1
        } else if c == '\\' {
            self.push_seg(Self::escaped(chars, i));
            self.mode = Mode::InWord;
            if i + 1 < chars.len() {
                2
            } else {
                1
            }
        } else if c == '|' || c == '&' {
            let mut op: Vec<char> = Vec::new();
            op.push(c);
            assert(op@ =~= seq![c]);
            self.emit(&op);
            1
        } else if c == '>' || c == '<' {
            let op = consume_redirect_op(chars, i);
            self.emit(&op);
            op.len()
        } else {
            self.seg.push(c);
            self.mode = Mode::InWord;
            1
        }
    }

    fn step_in_word(&mut self, chars: &Vec<char>, i: usize) -> (n: usize)
        requires
            i < chars.len(),
            old(self).mode == Mode::InWord,
        ensures
            final(self)@ == lex_step(chars@, i as int, old(self)@),
            n == lex_width(chars@, i as int, old(self)@),
            1 <= n,
            i + n <= chars.len(),
    {
        let c = chars[i];
        if c == ' ' || c == '\t' {
            self.flush_seg();
            self.flush_word();
            self.mode = Mode::Normal;
            1
        } else if c == '"' {
            self.flush_seg();
            self.mode = Mode::InDoubleQuote;
            1
        } else if c == '\'' {
            self.flush_seg();
            self.mode = Mode::InSingleQuote;
            1
        } else if c == '\\' {
            self.flush_seg();
            self.push_seg(Self::escaped(chars, i));
            if i + 1 < chars.len() {
                2
            } else {
                1
            }
        } else if c == '|' || c == '&' {
            self.flush_seg();
            self.flush_word();
            let mut op: Vec<char> = Vec::new();
            op.push(c);
            assert(op@ =~= seq![c]);
            self.emit(&op);
            self.mode = Mode::Normal;
            1
        } else if c == '>' || c == '<' {
            let op = consume_redirect_op(chars, i);
            let n = op.len();
            if c == '>' && self.word.len() == 0 && self.seg.len() == 1 && ascii_digit(self.seg[0]) {
                let mut full = self.take_seg();
                let mut tail = op;
                full.append(&mut tail);
                self.emit(&full);
            } else {
                self.flush_seg();
                self.flush_word();
                self.emit(&op);
            }
            self.mode = Mode::Normal;
            n
        } else {
            self.seg.push(c);
            1
        }
    }

    fn step_in_double_quote(&mut self, chars: &Vec<char>, i: usize) -> (n: usize)
        requires
            i < chars.len(),
            old(self).mode == Mode::InDoubleQuote,
        ensures
            final(self)@ == lex_step(chars@, i as int, old(self)@),
            n == lex_width(chars@, i as int, old(self)@),
            1 <= n,
            i + n <= chars.len(),
    {
        let c = chars[i];
        if c == '"' {
            let text = self.take_seg();
            self.push_seg(WordSegment::DoubleQuoted(string_of(&text)));
            self.mode = Mode::InWord;
            1
        } else if c == '\\' && i + 1 < chars.len() && (chars[i + 1] == '"' || chars[i + 1] == '\\'
            || chars[i + 1] == '$' || chars[i + 1] == '`') {
            self.seg.push(chars[i + 1]);
            2
        } else {
            self.seg.push(c);
            1
        }
    }

    fn step_in_single_quote(&mut self, chars: &Vec<char>, i: usize) -> (n: usize)
        requires
            i < chars.len(),
            old(self).mode == Mode::InSingleQuote,
        ensures
            final(self)@ == lex_step(chars@, i as int, old(self)@),
            n == lex_width(chars@, i as int, old(self)@),
            1 <= n,
            i + n <= chars.len(),
    {
        let c = chars[i];
        if c == '\'' {
            let text = self.take_seg();
            self.push_seg(WordSegment::SingleQuoted(string_of(&text)));
            self.mode = Mode::InWord;
        } else {
            self.seg.push(c);
        }
        1
    }
}

/// Tokenizes a line into words, each keeping its quote context.
///
/// Blanks separate words; `|`, `&` and the redirect operators are words of
/// their own; a backslash makes the next character literal; quotes group
/// text into one segment. A quote left open is an error.
pub fn tokenize(input: &str) -> (r: Result<Vec<Word>, String>)
    ensures
        match tokenize_spec(input@) {
            Ok(words) => r is Ok && r->Ok_0.deep_view() == words,
            Err(e) => r is Err && r->Err_0@ == lex_error_message(e),
        },
{
    let chars = chars_of(input);
    let mut lx = Lexer::new();
    let mut i: usize = 0;
    while i < chars.len()
        invariant
            i <= chars.len(),
            lex_from(chars@, i as int, lx@) == lex_from(chars@, 0, LexState::init()),
        decreases chars.len() - i,
    {
        let n = match lx.mode {
            Mode::Normal => lx.step_normal(&chars, i),
            Mode::InWord => lx.step_in_word(&chars, i),
            Mode::InDoubleQuote => lx.step_in_double_quote(&chars, i),
            Mode::InSingleQuote => lx.step_in_single_quote(&chars, i),
        };
        i += n;
    }
    match lx.mode {
        Mode::Normal => Ok(lx.words),
        Mode::InWord => {
            lx.flush_seg();
            lx.flush_word();
            Ok(lx.words)
        },
        Mode::InDoubleQuote => Err(String::from_str("jsh: syntax error: unterminated double quote")),
        Mode::InSingleQuote => Err(String::from_str("jsh: syntax error: unterminated single quote")),
    }
}

/// Parses input into raw words with their quote context preserved.
pub fn parse_words(input: &str) -> (r: Result<Vec<Word>, String>)
    ensures
        match tokenize_spec(input@) {
            Ok(words) => r is Ok && r->Ok_0.deep_view() == words,
            Err(e) => r is Err && r->Err_0@ == lex_error_message(e),
        },
{
    tokenize(input)
}


// ── Flattening ───────────────────────────────────────────────────────────

/// The text of a word: its segments' texts, one after the other.
pub open spec fn word_text(w: Seq<Segment>) -> Seq<char>
    decreases w.len(),
{
    if w.len() == 0 {
        Seq::empty()
    } else {
        word_text(w.drop_last()) + w.last().text()
    }
}

/// The text of a segment.
pub fn segment_text(seg: &WordSegment) -> (r: &String)
    ensures
        r@ == seg@.text(),
{
    match seg {
        WordSegment::Unquoted(s) => s,
        WordSegment::DoubleQuoted(s) => s,
        WordSegment::SingleQuoted(s) => s,
    }
}

/// Flattens one word into its text, discarding quote context.
pub fn word_to_string(word: &Word) -> (r: String)
    ensures
        r@ == word_text(word.deep_view()),
{
    let mut out: Vec<char> = Vec::new();
    let mut i: usize = 0;
    while i < word.len()
        invariant
            i <= word.len(),
            out@ == word_text(word.deep_view().take(i as int)),
        decreases word.len() - i,
    {
        let mut piece = chars_of(segment_text(&word[i]).as_str());
        out.append(&mut piece);
        proof {
            let w = word.deep_view();
            assert(w.take(i + 1).drop_last() =~= w.take(i as int));
            assert(w.take(i + 1).last() == w[i as int]);
        }
        i += 1;
    }
    assert(word.deep_view().take(i as int) =~= word.deep_view());
    string_of(&out)
}

/// Flattens words into plain strings, discarding quote context.
pub fn words_to_strings(words: &[Word]) -> (r: Vec<String>)
    ensures
        r.deep_view() == words.deep_view().map_values(|w: Seq<Segment>| word_text(w)),
{
    let mut out: Vec<String> = Vec::new();
    let mut i: usize = 0;
    while i < words.len()
        invariant
            i <= words.len(),
            out.len() == i,
            forall|j: int| 0 <= j < i ==> out[j]@ == word_text(#[trigger] words[j].deep_view()),
        decreases words.len() - i,
    {
        out.push(word_to_string(&words[i]));
        i += 1;
    }
    assert(out.deep_view() =~= words.deep_view().map_values(|w: Seq<Segment>| word_text(w)));
    out
}

/// Parses a line into a command of plain strings, without expansion:
/// the first word is the program, the others its arguments. A line that
/// does not tokenize, or holds no word, gives `None`.
pub fn parse(input: &str) -> (r: Option<Command>)
    ensures
        match tokenize_spec(input@) {
            Ok(words) if words.len() > 0 => r is Some && r->0@ == (CommandView {
                program: word_text(words[0]),
                args: words.skip(1).map_values(|w: Seq<Segment>| word_text(w)),
            }),
            _ => r is None,
        },
{
    let words = match tokenize(input) {
        Ok(words) => words,
        Err(_) => {
            return None;
        },
    };
    let mut strings = words_to_strings(words.as_slice());
    let ghost ws = words.deep_view();
    let ghost texts = strings.deep_view();
    assert(texts.len() == ws.len());
    if strings.len() == 0 {
        return None;
    }
    assert(texts[0] == word_text(ws[0]));
    let program = strings.remove(0);
    assert forall|j: int| 0 <= j < strings.len() implies strings.deep_view()[j] == word_text(
        ws[j + 1],
    ) by {
        assert(strings.deep_view()[j] == texts[j + 1]);
    }
    assert(strings.deep_view() =~= ws.skip(1).map_values(|w: Seq<Segment>| word_text(w)));
    Some(Command { program, args: strings })
}

// ── Pipelines ────────────────────────────────────────────────────────────

/// Whether the word is a bare `|`, the pipeline separator.
pub open spec fn is_pipe(w: Seq<Segment>) -> bool {
    w == bare_word(seq!['|'])
}

/// Whether the word is a bare `&`, the background operator.
pub open spec fn is_background(w: Seq<Segment>) -> bool {
    w == bare_word(seq!['&'])
}

/// The stages of a pipeline written out as one word list, with a `|`
/// between two stages.
pub open spec fn join_pipes(stages: Seq<Seq<Seq<Segment>>>) -> Seq<Seq<Segment>>
    decreases stages.len(),
{
    if stages.len() == 0 {
        Seq::empty()
    } else if stages.len() == 1 {
        stages[0]
    } else {
        join_pipes(stages.drop_last()).push(bare_word(seq!['|'])) + stages.last()
    }
}

/// What is wrong with the `|` tokens of a word list.
pub enum PipeError {
    /// A `|` stands first, or right after another `|`.
    MissingBefore,
    /// The list is empty, or ends in `|`.
    ExpectedAfter,
}

/// A `|` at `i` with no command before it.
pub open spec fn pipe_lacks_command_before(words: Seq<Seq<Segment>>, i: int) -> bool {
    0 <= i < words.len() && is_pipe(words[i]) && (i == 0 || is_pipe(words[i - 1]))
}

/// The error in the pipeline structure of `words`, if there is one.
pub open spec fn pipe_error(words: Seq<Seq<Segment>>) -> Option<PipeError> {
    if exists|i: int| pipe_lacks_command_before(words, i) {
        Some(PipeError::MissingBefore)
    } else if words.len() == 0 || is_pipe(words.last()) {
        Some(PipeError::ExpectedAfter)
    } else {
        None
    }
}

pub open spec fn pipe_error_message(e: PipeError) -> Seq<char> {
    match e {
        PipeError::MissingBefore => "jsh: syntax error: missing command before '|'"@,
        PipeError::ExpectedAfter => "jsh: syntax error: expected command after '|'"@,
    }
}

/// Every stage holds a word, and none holds a `|`.
pub open spec fn stages_well_formed(stages: Seq<Seq<Seq<Segment>>>) -> bool {
    forall|k: int|
        0 <= k < stages.len() ==> {
            &&& (#[trigger] stages[k]).len() > 0
            &&& forall|j: int| 0 <= j < stages[k].len() ==> !is_pipe(#[trigger] stages[k][j])
        }
}

fn is_operator_word(word: &Word, op: char) -> (r: bool)
    ensures
        r == (word.deep_view() == bare_word(seq![op])),
{
    if word.len() != 1 {
        assert(word.deep_view().len() != bare_word(seq![op]).len());
        return false;
    }
    match &word[0] {
        WordSegment::Unquoted(token) => {
            let cs = chars_of(token.as_str());
            let r = cs.len() == 1 && cs[0] == op;
            proof {
                let w = word.deep_view();
                assert(w[0] == Segment::Unquoted(cs@));
                if r {
                    assert(cs@ =~= seq![op]);
                    assert(w =~= bare_word(seq![op]));
                } else if w == bare_word(seq![op]) {
                    assert(bare_word(seq![op])[0] == Segment::Unquoted(seq![op]));
                    assert(cs@ == seq![op]);
                }
            }
            r
        },
        _ => {
            proof {
                let w = word.deep_view();
                assert(w[0] == word[0]@);
                if w == bare_word(seq![op]) {
                    assert(bare_word(seq![op])[0] == Segment::Unquoted(seq![op]));
                }
            }
            false
        },
    }
}

/// Returns true if this word is a bare `|`.
pub fn is_pipe_word(word: &Word) -> (r: bool)
    ensures
        r == is_pipe(word.deep_view()),
{
    is_operator_word(word, '|')
}

/// Returns true if this word is a bare `&` background operator.
pub fn is_background_word(word: &Word) -> (r: bool)
    ensures
        r == is_background(word.deep_view()),
{
    is_operator_word(word, '&')
}

/// Splits tokenized words into pipeline stages at the bare `|` words.
///
/// Succeeds exactly when every `|` has a command on both sides; the stages
/// then are the word runs between the separators. Otherwise the error
/// says which side of a `|` lacks its command.
pub fn split_pipeline(words: &[Word]) -> (r: Result<Vec<Vec<Word>>, String>)
    ensures
        match pipe_error(words.deep_view()) {
            None => r is Ok && join_pipes(r->Ok_0.deep_view()) == words.deep_view()
                && stages_well_formed(r->Ok_0.deep_view()),
            Some(e) => r is Err && r->Err_0@ == pipe_error_message(e),
        },
{
    let ghost ws = words.deep_view();
    let mut commands: Vec<Vec<Word>> = Vec::new();
    let mut current: Vec<Word> = Vec::new();
    let mut i: usize = 0;
    while i < words.len()
        invariant
            i <= words.len(),
            ws == words.deep_view(),
            join_pipes(commands.deep_view().push(current.deep_view())) == ws.take(i as int),
            stages_well_formed(commands.deep_view()),
            forall|j: int| 0 <= j < current.len() ==> !is_pipe(#[trigger] current.deep_view()[j]),
            current.len() == 0 <==> (i == 0 || is_pipe(ws[i - 1])),
            forall|j: int| 0 <= j < i ==> !pipe_lacks_command_before(ws, j),
        decreases words.len() - i,
    {
        let ghost stages0 = commands.deep_view();
        let ghost cur0 = current.deep_view();
        if is_pipe_word(&words[i]) {
            if current.len() == 0 {
                assert(pipe_lacks_command_before(ws, i as int));
                return Err(String::from_str("jsh: syntax error: missing command before '|'"));
            }
            let mut done: Vec<Word> = Vec::new();
            std::mem::swap(&mut current, &mut done);
            commands.push(done);
            proof {
                let stages1 = commands.deep_view();
                assert(stages1 =~= stages0.push(cur0));
                assert(current.deep_view() =~= Seq::<Seq<Segment>>::empty());
                let open1 = stages1.push(Seq::empty());
                assert(open1.drop_last() =~= stages1);
                assert(join_pipes(open1) =~= ws.take(i as int).push(ws[i as int]));
                assert(ws.take(i + 1) =~= ws.take(i as int).push(ws[i as int]));
            }
        } else {
            current.push(clone_word(&words[i]));
            proof {
                let cur1 = current.deep_view();
                assert(cur1 =~= cur0.push(ws[i as int]));
                let open0 = stages0.push(cur0);
                let open1 = stages0.push(cur1);
                assert(open0.drop_last() =~= stages0);
                assert(open1.drop_last() =~= stages0);
                assert(join_pipes(open1) =~= join_pipes(open0).push(ws[i as int]));
                assert(ws.take(i + 1) =~= ws.take(i as int).push(ws[i as int]));
            }
        }
        i += 1;
    }
    assert(ws.take(i as int) =~= ws);
    if current.len() == 0 {
        return Err(String::from_str("jsh: syntax error: expected command after '|'"));
    }
    let ghost stages0 = commands.deep_view();
    commands.push(current);
    assert(commands.deep_view() =~= stages0.push(current.deep_view()));
    Ok(commands)
}

} // verus!
