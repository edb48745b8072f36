//! Writing words back out as a line, and the law that ties it to the
//! tokenizer: what the tokenizer reads from a line, written out and read
//! again, is what it read at first.

use vstd::prelude::*;
use crate::ast::{ChainEntry, ChainEntryView, Connector};
use crate::script_parser::{
    chain_words,
    connector_words,
    lemma_chain_round_trip,
    no_double_operator_word,
    parse_chain_spec,
};
use crate::text::{chars_of, push_chars, string_of};
use crate::parser::{
    clone_word,
    is_background_word,
    is_pipe_word,
    Word,
    WordSegment,
    bare_word,
    escapable_in_double_quotes,
    escaped_char,
    is_ascii_digit,
    is_blank,
    lex_from,
    lex_step,
    lex_width,
    redirect_op,
    redirect_op_len,
    tokenize_spec,
    LexState,
    Mode,
    Segment,
};

verus! {

// ── Writing out ──────────────────────────────────────────────────────────

/// A character that stands for itself in an unquoted word.
pub open spec fn is_plain_char(c: char) -> bool {
    !is_blank(c) && c != '"' && c != '\'' && c != '\\' && c != '|' && c != '&' && c != '>' && c
        != '<'
}

/// The text between double quotes that stands for `t`: a backslash
/// before each character that a backslash can escape there.
pub open spec fn escape_double(t: Seq<char>) -> Seq<char>
    decreases t.len(),
{
    if t.len() == 0 {
        Seq::empty()
    } else if escapable_in_double_quotes(t[0]) {
        seq!['\\', t[0]] + escape_double(t.skip(1))
    } else {
        seq![t[0]] + escape_double(t.skip(1))
    }
}

/// A segment, written out: unquoted text as it is, double-quoted text
/// between double quotes with its escapes, single-quoted text between
/// single quotes, and a single quote, which cannot stand between single
/// quotes, after a backslash.
pub open spec fn display_segment(seg: Segment) -> Seq<char> {
    match seg {
        Segment::Unquoted(t) => t,
        Segment::DoubleQuoted(t) => seq!['"'] + escape_double(t) + seq!['"'],
        Segment::SingleQuoted(t) => {
            if t.contains('\'') {
                seq!['\\'] + t
            } else {
                seq!['\''] + t + seq!['\'']
            }
        },
    }
}

/// A word, written out: its segments, one after the other.
pub open spec fn display_word(w: Seq<Segment>) -> Seq<char>
    decreases w.len(),
{
    if w.len() == 0 {
        Seq::empty()
    } else {
        display_segment(w[0]) + display_word(w.skip(1))
    }
}

/// Whether two words that follow each other are written without a space
/// between them: two `&`, which together read `&&`, and two `|`.
pub open spec fn written_together(a: Seq<Segment>, b: Seq<Segment>) -> bool {
    a == b && (a == bare_word(seq!['&']) || a == bare_word(seq!['|']))
}

/// What is written between two words that follow each other.
pub open spec fn separator(a: Seq<Segment>, b: Seq<Segment>) -> Seq<char> {
    if written_together(a, b) {
        Seq::empty()
    } else {
        seq![' ']
    }
}

/// A list of words, written out: the words with one space between them,
/// but for `&&` and `||`.
pub open spec fn display_words(ws: Seq<Seq<Segment>>) -> Seq<char>
    decreases ws.len(),
{
    if ws.len() == 0 {
        Seq::empty()
    } else if ws.len() == 1 {
        display_word(ws[0])
    } else {
        display_word(ws[0]) + separator(ws[0], ws[1]) + display_words(ws.skip(1))
    }
}

// ── What the tokenizer gives ─────────────────────────────────────────────

/// Text of plain characters.
pub open spec fn all_plain(t: Seq<char>) -> bool {
    forall|k: int| 0 <= k < t.len() ==> is_plain_char(#[trigger] t[k])
}

/// A segment as the tokenizer makes them: unquoted text is not empty and
/// plain; single-quoted text holds no single quote, unless it is one
/// escaped single quote.
pub open spec fn segment_ok(seg: Segment) -> bool {
    match seg {
        Segment::Unquoted(t) => t.len() > 0 && all_plain(t),
        Segment::DoubleQuoted(_) => true,
        Segment::SingleQuoted(t) => !t.contains('\'') || t == seq!['\''],
    }
}

/// Segments as they follow each other in a word: each is well formed, and
/// no unquoted segment follows another.
pub open spec fn segments_ok(w: Seq<Segment>) -> bool {
    &&& forall|k: int| 0 <= k < w.len() ==> segment_ok(#[trigger] w[k])
    &&& forall|k: int| 0 <= k < w.len() - 1 ==> !(#[trigger] w[k] is Unquoted && w[k + 1] is Unquoted)
}

/// The spellings of a redirect operator.
pub open spec fn is_redirect_text(op: Seq<char>) -> bool {
    op == seq!['>'] || op == seq!['>', '>'] || op == seq!['>', '&'] || (op.len() == 3 && op[0] == '>'
        && op[1] == '&' && is_ascii_digit(op[2])) || op == seq!['<'] || op == seq!['<', '<'] || op
        == seq!['<', '<', '<']
}

/// The spellings of an operator word: `|`, `&`, a redirect operator, or a
/// digit and a redirect operator of `>`.
pub open spec fn is_operator_text(op: Seq<char>) -> bool {
    op == seq!['|'] || op == seq!['&'] || is_redirect_text(op) || (op.len() >= 2 && is_ascii_digit(
        op[0],
    ) && op[1] == '>' && is_redirect_text(op.skip(1)))
}

/// An operator word.
pub open spec fn is_operator_word(w: Seq<Segment>) -> bool {
    w.len() == 1 && w[0] is Unquoted && is_operator_text(w[0]->Unquoted_0)
}

/// A word as the tokenizer makes them: an operator word, or a word of
/// well-formed segments.
pub open spec fn word_ok(w: Seq<Segment>) -> bool {
    is_operator_word(w) || (w.len() > 0 && segments_ok(w))
}

pub open spec fn words_ok(ws: Seq<Seq<Segment>>) -> bool {
    forall|k: int| 0 <= k < ws.len() ==> word_ok(#[trigger] ws[k])
}

/// What holds of the automaton's state whatever it has read.
pub open spec fn state_ok(st: LexState) -> bool {
    &&& words_ok(st.words)
    &&& segments_ok(st.word)
    &&& match st.mode {
        Mode::Normal => st.word.len() == 0 && st.seg.len() == 0,
        Mode::InWord => all_plain(st.seg) && (st.word.len() > 0 ==> !(st.word.last() is Unquoted)),
        Mode::InDoubleQuote => true,
        Mode::InSingleQuote => !st.seg.contains('\''),
    }
}

proof fn lemma_redirect_op_is_operator(s: Seq<char>, i: int)
    requires
        0 <= i < s.len(),
        s[i] == '>' || s[i] == '<',
    ensures
        is_redirect_text(redirect_op(s, i)),
        redirect_op(s, i).len() == redirect_op_len(s, i),
        redirect_op(s, i)[0] == s[i],
        i + redirect_op_len(s, i) <= s.len(),
{
    let op = redirect_op(s, i);
    let n = redirect_op_len(s, i);
    if n == 1 {
        assert(op =~= seq![s[i]]);
    } else if n == 2 {
        assert(op =~= seq![s[i], s[i + 1]]);
    } else {
        assert(op =~= seq![s[i], s[i + 1], s[i + 2]]);
    }
}

proof fn lemma_push_segment_ok(w: Seq<Segment>, seg: Segment)
    requires
        segments_ok(w),
        segment_ok(seg),
        !(seg is Unquoted) || w.len() == 0 || !(w.last() is Unquoted),
    ensures
        segments_ok(w.push(seg)),
{
    let grown = w.push(seg);
    assert forall|k: int| 0 <= k < grown.len() implies segment_ok(#[trigger] grown[k]) by {
        if k < w.len() {
            assert(grown[k] == w[k]);
        }
    }
    assert forall|k: int| 0 <= k < grown.len() - 1 implies !(#[trigger] grown[k] is Unquoted
        && grown[k + 1] is Unquoted) by {
        assert(grown[k] == w[k]);
        if k + 1 < w.len() {
            assert(grown[k + 1] == w[k + 1]);
        }
    }
}

proof fn lemma_push_word_ok(ws: Seq<Seq<Segment>>, w: Seq<Segment>)
    requires
        words_ok(ws),
        word_ok(w),
    ensures
        words_ok(ws.push(w)),
{
    let grown = ws.push(w);
    assert forall|k: int| 0 <= k < grown.len() implies word_ok(#[trigger] grown[k]) by {
        if k < ws.len() {
            assert(grown[k] == ws[k]);
        }
    }
}

/// Closing the segment and the word under construction keeps the state
/// well formed.
proof fn lemma_flush_ok(st: LexState)
    requires
        state_ok(st),
        st.mode is InWord,
    ensures
        segments_ok(st.flush_seg().word),
        st.flush_seg().words == st.words,
        st.flush_seg().seg.len() == 0,
        words_ok(st.flush_seg().flush_word().words),
        st.flush_seg().flush_word().word.len() == 0,
        st.flush_seg().flush_word().seg.len() == 0,
{
    if st.seg.len() > 0 {
        lemma_push_segment_ok(st.word, Segment::Unquoted(st.seg));
    }
    let flushed = st.flush_seg();
    if flushed.word.len() > 0 {
        lemma_push_word_ok(flushed.words, flushed.word);
    }
}

proof fn lemma_operator_word_ok(op: Seq<char>)
    requires
        is_operator_text(op),
    ensures
        word_ok(bare_word(op)),
{
    assert(bare_word(op)[0] == Segment::Unquoted(op));
}

/// Each step of the automaton keeps its state well formed.
proof fn lemma_step_ok(s: Seq<char>, i: int, st: LexState)
    requires
        0 <= i < s.len(),
        state_ok(st),
    ensures
        state_ok(lex_step(s, i, st)),
        1 <= lex_width(s, i, st),
{
    let c = s[i];
    let next = lex_step(s, i, st);
    match st.mode {
        Mode::Normal => {
            if is_blank(c) || c == '"' || c == '\'' {
            } else if c == '\\' {
                let seg = Segment::SingleQuoted(seq![escaped_char(s, i)]);
                lemma_single_char_ok(escaped_char(s, i));
                lemma_push_segment_ok(st.word, seg);
                assert(next.word.last() == seg);
            } else if c == '|' || c == '&' {
                lemma_operator_word_ok(seq![c]);
                lemma_push_word_ok(st.words, bare_word(seq![c]));
            } else if c == '>' || c == '<' {
                lemma_redirect_op_is_operator(s, i);
                lemma_operator_word_ok(redirect_op(s, i));
                lemma_push_word_ok(st.words, bare_word(redirect_op(s, i)));
            } else {
                assert(next.seg =~= seq![c]);
            }
        },
        Mode::InWord => {
            lemma_flush_ok(st);
            let flushed = st.flush_seg();
            if is_blank(c) {
            } else if c == '"' || c == '\'' {
                assert(!next.seg.contains('\'')) by {
                    assert(next.seg.len() == 0);
                }
            } else if c == '\\' {
                let seg = Segment::SingleQuoted(seq![escaped_char(s, i)]);
                lemma_single_char_ok(escaped_char(s, i));
                lemma_push_segment_ok(flushed.word, seg);
                assert(next.word.last() == seg);
            } else if c == '|' || c == '&' {
                lemma_operator_word_ok(seq![c]);
                lemma_push_word_ok(flushed.flush_word().words, bare_word(seq![c]));
            } else if c == '>' || c == '<' {
                lemma_redirect_op_is_operator(s, i);
                if st.has_fd_prefix(c) {
                    let op = st.seg + redirect_op(s, i);
                    assert(op[0] == st.seg[0]);
                    assert(op.skip(1) =~= redirect_op(s, i));
                    lemma_operator_word_ok(op);
                    lemma_push_word_ok(st.words, bare_word(op));
                } else {
                    lemma_operator_word_ok(redirect_op(s, i));
                    lemma_push_word_ok(flushed.flush_word().words, bare_word(redirect_op(s, i)));
                }
            } else {
                assert forall|k: int| 0 <= k < next.seg.len() implies is_plain_char(
                    #[trigger] next.seg[k],
                ) by {
                    if k < st.seg.len() {
                        assert(next.seg[k] == st.seg[k]);
                    }
                }
            }
        },
        Mode::InDoubleQuote => {
            if c == '"' {
                lemma_push_segment_ok(st.word, Segment::DoubleQuoted(st.seg));
                assert(next.word.last() == Segment::DoubleQuoted(st.seg));
                assert(next.seg.len() == 0);
            }
        },
        Mode::InSingleQuote => {
            if c == '\'' {
                lemma_push_segment_ok(st.word, Segment::SingleQuoted(st.seg));
                assert(next.word.last() == Segment::SingleQuoted(st.seg));
                assert(next.seg.len() == 0);
            } else {
                assert forall|k: int| 0 <= k < next.seg.len() implies #[trigger] next.seg[k]
                    != '\'' by {
                    if k < st.seg.len() {
                        assert(st.seg.contains(st.seg[k]));
                        assert(next.seg[k] == st.seg[k]);
                    }
                }
            }
        },
    }
}

proof fn lemma_single_char_ok(c: char)
    ensures
        segment_ok(Segment::SingleQuoted(seq![c])),
{
    let t = seq![c];
    if t.contains('\'') {
        let k = choose|k: int| 0 <= k < t.len() && t[k] == '\'';
        assert(t =~= seq!['\'']);
    }
}

proof fn lemma_lex_from_ok(s: Seq<char>, i: int, st: LexState)
    requires
        0 <= i,
        state_ok(st),
    ensures
        state_ok(lex_from(s, i, st)),
    decreases s.len() - i,
{
    if i < s.len() {
        lemma_step_ok(s, i, st);
        lemma_lex_from_ok(s, i + lex_width(s, i, st), lex_step(s, i, st));
    }
}

/// Every word that the tokenizer gives is an operator word or a word of
/// well-formed segments.
pub proof fn lemma_tokens_are_well_formed(s: Seq<char>)
    requires
        tokenize_spec(s) is Ok,
    ensures
        words_ok(tokenize_spec(s)->Ok_0),
{
    let start = LexState::init();
    assert(state_ok(start));
    lemma_lex_from_ok(s, 0, start);
    let end = lex_from(s, 0, start);
    if end.mode is InWord {
        lemma_flush_ok(end);
    }
}


// ── Reading again what was written out ───────────────────────────────────

/// Whether the text `d` stands in `s` at `i`.
pub open spec fn has_at(s: Seq<char>, i: int, d: Seq<char>) -> bool {
    &&& 0 <= i
    &&& i + d.len() <= s.len()
    &&& forall|k: int| 0 <= k < d.len() ==> s[i + k] == #[trigger] d[k]
}

/// Whether a word can end before `j`: the line ends there, or a space
/// stands there.
pub open spec fn ends_word(s: Seq<char>, j: int) -> bool {
    j >= s.len() || s[j] == ' '
}

proof fn lemma_has_at_split(s: Seq<char>, i: int, a: Seq<char>, b: Seq<char>)
    requires
        has_at(s, i, a + b),
    ensures
        has_at(s, i, a),
        has_at(s, i + a.len(), b),
{
    let d = a + b;
    assert forall|k: int| 0 <= k < a.len() implies s[i + k] == #[trigger] a[k] by {
        assert(d[k] == a[k]);
    }
    assert forall|k: int| 0 <= k < b.len() implies s[i + a.len() + k] == #[trigger] b[k] by {
        assert(d[a.len() + k] == b[k]);
    }
}

/// The state with `t` added to the segment under construction.
pub open spec fn with_text(st: LexState, t: Seq<char>) -> LexState {
    LexState { seg: st.seg + t, ..st }
}

/// Whether a word can start in this state.
pub open spec fn at_word_boundary(st: LexState) -> bool {
    st.mode is InWord || (st.mode is Normal && st.word.len() == 0 && st.seg.len() == 0)
}

proof fn lemma_lex_plain(s: Seq<char>, i: int, st: LexState, t: Seq<char>)
    requires
        at_word_boundary(st),
        t.len() > 0,
        all_plain(t),
        has_at(s, i, t),
    ensures
        lex_from(s, i, st) == lex_from(s, i + t.len(), with_text(st, t).with_mode(Mode::InWord)),
    decreases t.len(),
{
    let c = t[0];
    assert(s[i] == c);
    assert(is_plain_char(c));
    let st1 = lex_step(s, i, st);
    assert(lex_width(s, i, st) == 1);
    assert(st1 == st.push_char(c).with_mode(Mode::InWord));
    if t.len() == 1 {
        assert(st.seg.push(c) =~= st.seg + t);
    } else {
        let rest = t.skip(1);
        assert(t =~= seq![c] + rest);
        lemma_has_at_split(s, i, seq![c], rest);
        assert forall|k: int| 0 <= k < rest.len() implies is_plain_char(#[trigger] rest[k]) by {
            assert(rest[k] == t[k + 1]);
        }
        lemma_lex_plain(s, i + 1, st1, rest);
        assert(st1.seg + rest =~= st.seg + t);
    }
}

proof fn lemma_lex_double_body(s: Seq<char>, i: int, st: LexState, t: Seq<char>)
    requires
        st.mode is InDoubleQuote,
        has_at(s, i, escape_double(t)),
    ensures
        lex_from(s, i, st) == lex_from(s, i + escape_double(t).len(), with_text(st, t)),
    decreases t.len(),
{
    if t.len() == 0 {
        assert(st.seg + t =~= st.seg);
    } else {
        let c = t[0];
        let rest = t.skip(1);
        if escapable_in_double_quotes(c) {
            lemma_has_at_split(s, i, seq!['\\', c], escape_double(rest));
            assert(seq!['\\', c][0] == '\\' && seq!['\\', c][1] == c);
            assert(s[i + 0] == '\\');
            assert(s[i + 1] == c);
            let st1 = lex_step(s, i, st);
            assert(lex_width(s, i, st) == 2);
            assert(st1 == st.push_char(c));
            lemma_lex_double_body(s, i + 2, st1, rest);
            assert(st1.seg + rest =~= st.seg + t);
        } else {
            lemma_has_at_split(s, i, seq![c], escape_double(rest));
            assert(seq![c][0] == c);
            assert(s[i + 0] == c);
            let st1 = lex_step(s, i, st);
            assert(lex_width(s, i, st) == 1);
            assert(st1 == st.push_char(c));
            lemma_lex_double_body(s, i + 1, st1, rest);
            assert(st1.seg + rest =~= st.seg + t);
        }
    }
}

proof fn lemma_lex_single_body(s: Seq<char>, i: int, st: LexState, t: Seq<char>)
    requires
        st.mode is InSingleQuote,
        !t.contains('\''),
        has_at(s, i, t),
    ensures
        lex_from(s, i, st) == lex_from(s, i + t.len(), with_text(st, t)),
    decreases t.len(),
{
    if t.len() == 0 {
        assert(st.seg + t =~= st.seg);
    } else {
        let c = t[0];
        let rest = t.skip(1);
        assert(t.contains(c));
        assert(s[i + 0] == c);
        let st1 = lex_step(s, i, st);
        assert(st1 == st.push_char(c));
        assert(t =~= seq![c] + rest);
        lemma_has_at_split(s, i, seq![c], rest);
        assert forall|k: int| 0 <= k < rest.len() implies #[trigger] rest[k] != '\'' by {
            assert(rest[k] == t[k + 1]);
            assert(t.contains(t[k + 1]));
        }
        lemma_lex_single_body(s, i + 1, st1, rest);
        assert(st1.seg + rest =~= st.seg + t);
    }
}

/// The state after a segment was read at a word boundary.
pub open spec fn after_segment(st: LexState, x: Segment) -> LexState {
    match x {
        Segment::Unquoted(t) => with_text(st, t).with_mode(Mode::InWord),
        _ => LexState {
            word: st.flush_seg().word.push(x),
            seg: Seq::empty(),
            mode: Mode::InWord,
            ..st
        },
    }
}

proof fn lemma_lex_segment(s: Seq<char>, i: int, st: LexState, x: Segment)
    requires
        at_word_boundary(st),
        segment_ok(x),
        has_at(s, i, display_segment(x)),
    ensures
        lex_from(s, i, st) == lex_from(s, i + display_segment(x).len(), after_segment(st, x)),
{
    match x {
        Segment::Unquoted(t) => {
            lemma_lex_plain(s, i, st, t);
        },
        Segment::DoubleQuoted(t) => {
            let body = escape_double(t);
            let d = display_segment(x);
            assert(d =~= seq!['"'] + (body + seq!['"']));
            lemma_has_at_split(s, i, seq!['"'], body + seq!['"']);
            lemma_has_at_split(s, i + 1, body, seq!['"']);
            assert(seq!['"'][0] == '"');
            assert(s[i + 0] == '"');
            assert(s[i + 1 + body.len() + 0] == '"');
            let opened = lex_step(s, i, st);
            assert(lex_width(s, i, st) == 1);
            assert(opened == st.flush_seg().with_mode(Mode::InDoubleQuote));
            assert(opened.seg.len() == 0);
            lemma_lex_double_body(s, i + 1, opened, t);
            let filled = with_text(opened, t);
            assert(filled.seg =~= t);
            let j = i + 1 + body.len();
            assert(lex_width(s, j, filled) == 1);
            assert(lex_step(s, j, filled) == after_segment(st, x));
        },
        Segment::SingleQuoted(t) => {
            if t.contains('\'') {
                assert(t == seq!['\'']);
                let d = display_segment(x);
                assert(d =~= seq!['\\', '\'']);
                assert(d[0] == '\\' && d[1] == '\'');
                assert(s[i + 0] == '\\');
                assert(s[i + 1] == '\'');
                assert(escaped_char(s, i) == '\'');
                assert(lex_width(s, i, st) == 2);
                let read = lex_step(s, i, st);
                let want = after_segment(st, x);
                assert(read.seg =~= want.seg);
                assert(read.word == want.word);
                assert(read == want);
            } else {
                let d = display_segment(x);
                assert(d =~= seq!['\''] + (t + seq!['\'']));
                lemma_has_at_split(s, i, seq!['\''], t + seq!['\'']);
                lemma_has_at_split(s, i + 1, t, seq!['\'']);
                assert(seq!['\''][0] == '\'');
                assert(s[i + 0] == '\'');
                assert(s[i + 1 + t.len() + 0] == '\'');
                let opened = lex_step(s, i, st);
                assert(lex_width(s, i, st) == 1);
                assert(opened == st.flush_seg().with_mode(Mode::InSingleQuote));
                assert(opened.seg.len() == 0);
                lemma_lex_single_body(s, i + 1, opened, t);
                let filled = with_text(opened, t);
                assert(filled.seg =~= t);
                let j = i + 1 + t.len();
                assert(lex_width(s, j, filled) == 1);
                assert(lex_step(s, j, filled) == after_segment(st, x));
            }
        },
    }
}

/// The state after the segments of `w` were read at a word boundary.
pub open spec fn after_word(st: LexState, w: Seq<Segment>) -> LexState
    decreases w.len(),
{
    if w.len() == 0 {
        st
    } else {
        after_word(after_segment(st, w[0]), w.skip(1))
    }
}

proof fn lemma_lex_word(s: Seq<char>, i: int, st: LexState, w: Seq<Segment>)
    requires
        at_word_boundary(st),
        forall|k: int| 0 <= k < w.len() ==> segment_ok(#[trigger] w[k]),
        has_at(s, i, display_word(w)),
    ensures
        lex_from(s, i, st) == lex_from(s, i + display_word(w).len(), after_word(st, w)),
        after_word(st, w).words == st.words,
        w.len() > 0 ==> after_word(st, w).mode is InWord,
    decreases w.len(),
{
    if w.len() > 0 {
        let rest = w.skip(1);
        lemma_has_at_split(s, i, display_segment(w[0]), display_word(rest));
        lemma_lex_segment(s, i, st, w[0]);
        let st1 = after_segment(st, w[0]);
        assert forall|k: int| 0 <= k < rest.len() implies segment_ok(#[trigger] rest[k]) by {
            assert(rest[k] == w[k + 1]);
        }
        lemma_lex_word(s, i + display_segment(w[0]).len(), st1, rest);
    }
}

/// Closing the last segment after a word was read gives the word.
proof fn lemma_after_word_flush(st: LexState, w: Seq<Segment>)
    requires
        segments_ok(w),
        w.len() > 0 && w[0] is Unquoted ==> st.seg.len() == 0,
    ensures
        after_word(st, w).flush_seg().word == st.flush_seg().word + w,
    decreases w.len(),
{
    if w.len() == 0 {
        assert(st.flush_seg().word + w =~= st.flush_seg().word);
    } else {
        let rest = w.skip(1);
        let st1 = after_segment(st, w[0]);
        assert(segment_ok(w[0]));
        assert forall|k: int| 0 <= k < rest.len() implies segment_ok(#[trigger] rest[k]) by {
            assert(rest[k] == w[k + 1]);
        }
        assert forall|k: int| 0 <= k < rest.len() - 1 implies !(#[trigger] rest[k] is Unquoted
            && rest[k + 1] is Unquoted) by {
            assert(rest[k] == w[k + 1]);
            assert(rest[k + 1] == w[k + 2]);
            assert(!(w[k + 1] is Unquoted && w[k + 1 + 1] is Unquoted));
        }
        if rest.len() > 0 && rest[0] is Unquoted {
            assert(rest[0] == w[1]);
            assert(!(w[0int] is Unquoted && w[0int + 1] is Unquoted));
        }
        lemma_after_word_flush(st1, rest);
        match w[0] {
            Segment::Unquoted(t) => {
                assert(st1.seg =~= t);
                assert(st1.flush_seg().word == st.word.push(w[0]));
                assert(st.flush_seg().word == st.word);
            },
            _ => {
                assert(st1.flush_seg().word == st.flush_seg().word.push(w[0]));
            },
        }
        assert(st1.flush_seg().word + rest =~= st.flush_seg().word + w) by {
            assert(w =~= seq![w[0]] + rest);
        }
    }
}

proof fn lemma_redirect_text_reads(s: Seq<char>, i: int, op: Seq<char>)
    requires
        is_redirect_text(op),
        has_at(s, i, op),
        ends_word(s, i + op.len()),
    ensures
        redirect_op(s, i) == op,
        redirect_op_len(s, i) == op.len(),
        s[i] == '>' || s[i] == '<',
        i < s.len(),
{
    assert(s[i + 0] == op[0]);
    if op.len() >= 2 {
        assert(s[i + 1] == op[1]);
    }
    if op.len() >= 3 {
        assert(s[i + 2] == op[2]);
    }
    assert(redirect_op_len(s, i) == op.len());
    assert(redirect_op(s, i) =~= op);
}

proof fn lemma_lex_operator(s: Seq<char>, i: int, st: LexState, op: Seq<char>)
    requires
        st.mode is Normal,
        st.word.len() == 0,
        st.seg.len() == 0,
        is_operator_text(op),
        has_at(s, i, op),
        ends_word(s, i + op.len()) || op == seq!['|'] || op == seq!['&'],
    ensures
        lex_from(s, i, st) == lex_from(s, i + op.len(), st.emit(op)),
{
    assert(s[i + 0] == op[0]);
    if op == seq!['|'] || op == seq!['&'] {
        assert(lex_width(s, i, st) == 1);
        assert(seq![s[i]] =~= op);
        assert(lex_step(s, i, st) == st.emit(op));
        assert(lex_from(s, i, st) == lex_from(s, i + 1, lex_step(s, i, st)));
    } else if is_redirect_text(op) {
        lemma_redirect_text_reads(s, i, op);
        assert(lex_width(s, i, st) == op.len());
        assert(lex_step(s, i, st) == st.emit(op));
        assert(lex_from(s, i, st) == lex_from(s, i + op.len(), lex_step(s, i, st)));
    } else {
        let d = op[0];
        let tail = op.skip(1);
        assert(op =~= seq![d] + tail);
        lemma_has_at_split(s, i, seq![d], tail);
        lemma_redirect_text_reads(s, i + 1, tail);
        assert(is_plain_char(d));
        let st1 = lex_step(s, i, st);
        assert(lex_width(s, i, st) == 1);
        assert(st1 == st.push_char(d).with_mode(Mode::InWord));
        assert(st1.seg =~= seq![d]);
        assert(st1.has_fd_prefix(s[i + 1]));
        let st2 = lex_step(s, i + 1, st1);
        assert(st1.seg + redirect_op(s, i + 1) =~= op);
        assert(st2.seg =~= st.emit(op).seg);
        assert(st2 == st.emit(op));
        assert(lex_width(s, i + 1, st1) == tail.len());
        assert(lex_from(s, i, st) == lex_from(s, i + 1, st1));
        assert(lex_from(s, i + 1, st1) == lex_from(s, i + 1 + tail.len(), st2));
    }
}

/// The words that the automaton has read at the end of the line, where
/// no quote is open.
pub open spec fn finished_words(end: LexState) -> Option<Seq<Seq<Segment>>> {
    match end.mode {
        Mode::Normal => Some(end.words),
        Mode::InWord => Some(end.flush_seg().flush_word().words),
        _ => None,
    }
}

proof fn lemma_lex_words(s: Seq<char>, i: int, st: LexState, ws: Seq<Seq<Segment>>)
    requires
        st.mode is Normal,
        st.word.len() == 0,
        st.seg.len() == 0,
        words_ok(ws),
        has_at(s, i, display_words(ws)),
        i + display_words(ws).len() == s.len(),
    ensures
        finished_words(lex_from(s, i, st)) == Some(st.words + ws),
    decreases ws.len(),
{
    if ws.len() == 0 {
        assert(st.words + ws =~= st.words);
    } else {
        let w = ws[0];
        let rest = ws.skip(1);
        let d = display_word(w);
        let j = i + d.len();
        assert(word_ok(w));
        let together = ws.len() > 1 && written_together(w, ws[1]);
        if ws.len() == 1 {
            assert(rest.len() == 0);
        } else {
            let sep = separator(w, ws[1]);
            assert(rest[0] == ws[1]);
            assert(display_words(ws) =~= d + (sep + display_words(rest)));
            lemma_has_at_split(s, i, d, sep + display_words(rest));
            lemma_has_at_split(s, j, sep, display_words(rest));
            if !together {
                assert(seq![' '][0] == ' ');
                assert(s[j + 0] == ' ');
            } else {
                assert(w[0] == Segment::Unquoted(seq!['&']) || w[0] == Segment::Unquoted(seq!['|']));
                assert(is_operator_text(seq!['&']) && is_operator_text(seq!['|']));
                assert(is_operator_word(w));
            }
        }
        assert forall|k: int| 0 <= k < rest.len() implies word_ok(#[trigger] rest[k]) by {
            assert(rest[k] == ws[k + 1]);
        }
        assert(st.words.push(w) + rest =~= st.words + ws) by {
            assert(ws =~= seq![w] + rest);
        }
        if is_operator_word(w) {
            let op = w[0]->Unquoted_0;
            assert(w =~= bare_word(op));
            assert(display_word(w.skip(1)) =~= Seq::<char>::empty());
            assert(d =~= op);
            lemma_lex_operator(s, i, st, op);
            let st1 = st.emit(op);
            if together {
                lemma_lex_words(s, j, st1, rest);
            } else if ws.len() > 1 {
                assert(lex_width(s, j, st1) == 1);
                assert(lex_step(s, j, st1) == st1);
                lemma_lex_words(s, j + 1, st1, rest);
            }
        } else {
            lemma_lex_word(s, i, st, w);
            lemma_after_word_flush(st, w);
            let a = after_word(st, w);
            assert(st.flush_seg().word + w =~= w);
            assert(a.flush_seg().word == w);
            assert(a.flush_seg().flush_word().words == st.words.push(w));
            if ws.len() > 1 {
                let st1 = a.flush_seg().flush_word().with_mode(Mode::Normal);
                assert(lex_width(s, j, a) == 1);
                assert(lex_step(s, j, a) == st1);
                lemma_lex_words(s, j + 1, st1, rest);
            }
        }
    }
}

/// Reading what was written out gives the words that were written: for
/// every list of words as the tokenizer makes them, the tokenizer reads
/// their written form back as the same list.
pub proof fn lemma_tokenize_display(ws: Seq<Seq<Segment>>)
    requires
        words_ok(ws),
    ensures
        tokenize_spec(display_words(ws)) == Ok::<Seq<Seq<Segment>>, crate::parser::LexError>(ws),
{
    let s = display_words(ws);
    let start = LexState::init();
    lemma_lex_words(s, 0, start, ws);
    assert(start.words + ws =~= ws);
}

/// Normalizing a line changes nothing of what it means: for every line
/// that the tokenizer accepts, the words it reads, written out and read
/// again, are the same words.
pub proof fn lemma_tokenize_round_trip(s: Seq<char>)
    requires
        tokenize_spec(s) is Ok,
    ensures
        tokenize_spec(display_words(tokenize_spec(s)->Ok_0)) == tokenize_spec(s),
{
    lemma_tokens_are_well_formed(s);
    lemma_tokenize_display(tokenize_spec(s)->Ok_0);
}


/// A chain, written out as a line: the words of its entries and, between
/// two entries, the connector of the second.
pub open spec fn display_chain(chain: Seq<ChainEntryView>) -> Seq<char> {
    display_words(chain_words(chain))
}

proof fn lemma_double_is_no_word(c: char)
    requires
        c == '&' || c == '|',
    ensures
        !word_ok(bare_word(seq![c, c])),
{
    let op = seq![c, c];
    let w = bare_word(op);
    assert(w.len() == 1);
    assert(w[0] == Segment::Unquoted(op));
    assert(op.len() == 2 && op[0] == c && op[1] == c);
    assert(!is_plain_char(op[0]));
    assert(!is_redirect_text(op)) by {
        assert(seq!['>'][0] == '>' && seq!['<'][0] == '<');
        assert(seq!['>', '>'][0] == '>' && seq!['>', '&'][0] == '>' && seq!['<', '<'][0] == '<');
        assert(seq!['<', '<', '<'].len() == 3);
    }
    assert(!is_operator_text(op)) by {
        assert(seq!['|'].len() == 1 && seq!['&'].len() == 1);
    }
    assert(!segment_ok(w[0]));
}

proof fn lemma_tokens_have_no_double_operator(ws: Seq<Seq<Segment>>)
    requires
        words_ok(ws),
    ensures
        no_double_operator_word(ws),
{
    assert forall|k: int| 0 <= k < ws.len() implies #[trigger] ws[k] != bare_word(seq!['&', '&'])
        && ws[k] != bare_word(seq!['|', '|']) by {
        let w = ws[k];
        assert(word_ok(w));
        if w == bare_word(seq!['&', '&']) {
            lemma_double_is_no_word('&');
        }
        if w == bare_word(seq!['|', '|']) {
            lemma_double_is_no_word('|');
        }
    }
}

/// Parsing a line, writing the chain out and parsing that again gives
/// the same chain: for every line that tokenizes and whose words parse
/// into a chain, the chain written out tokenizes, and its words parse
/// into the same chain.
pub proof fn lemma_parse_display_round_trip(line: Seq<char>)
    requires
        tokenize_spec(line) is Ok,
        parse_chain_spec(tokenize_spec(line)->Ok_0) is Ok,
    ensures
        ({
            let chain = parse_chain_spec(tokenize_spec(line)->Ok_0)->Ok_0;
            let again = tokenize_spec(display_chain(chain));
            again is Ok && parse_chain_spec(again->Ok_0) == parse_chain_spec(
                tokenize_spec(line)->Ok_0,
            )
        }),
{
    let words = tokenize_spec(line)->Ok_0;
    lemma_tokens_are_well_formed(line);
    lemma_tokens_have_no_double_operator(words);
    lemma_chain_round_trip(words);
    lemma_tokenize_display(words);
}

// ── Executable ───────────────────────────────────────────────────────────

fn write_segment(out: &mut Vec<char>, seg: &WordSegment)
    ensures
        final(out)@ == old(out)@ + display_segment(seg@),
{
    match seg {
        WordSegment::Unquoted(text) => {
            let t = chars_of(text.as_str());
            push_chars(out, &t);
        },
        WordSegment::DoubleQuoted(text) => {
            let t = chars_of(text.as_str());
            out.push('"');
            let ghost opened = out@;
            let mut i: usize = 0;
            assert(t@.skip(0) =~= t@);
            while i < t.len()
                invariant
                    i <= t.len(),
                    out@ + escape_double(t@.skip(i as int)) == opened + escape_double(t@),
                decreases t.len() - i,
            {
                let ghost before = out@;
                let ghost rest = t@.skip(i as int);
                assert(rest[0] == t[i as int]);
                assert(rest.skip(1) =~= t@.skip(i + 1));
                let c = t[i];
                if c == '"' || c == '\\' || c == '$' || c == '`' {
                    out.push('\\');
                    out.push(c);
                    assert(out@ + escape_double(t@.skip(i + 1)) =~= before + escape_double(rest));
                } else {
                    out.push(c);
                    assert(out@ + escape_double(t@.skip(i + 1)) =~= before + escape_double(rest));
                }
                i += 1;
            }
            assert(escape_double(t@.skip(i as int)) =~= Seq::<char>::empty());
            assert(out@ =~= opened + escape_double(t@));
            out.push('"');
            assert(out@ =~= old(out)@ + (seq!['"'] + escape_double(t@) + seq!['"']));
        },
        WordSegment::SingleQuoted(text) => {
            let t = chars_of(text.as_str());
            let mut quote = false;
            let mut i: usize = 0;
            while i < t.len()
                invariant
                    i <= t.len(),
                    quote == t@.take(i as int).contains('\''),
                decreases t.len() - i,
            {
                proof {
                    let seen = t@.take(i as int);
                    let more = t@.take(i + 1);
                    assert(more =~= seen.push(t[i as int]));
                    if seen.contains('\'') {
                        let k = choose|k: int| 0 <= k < seen.len() && seen[k] == '\'';
                        assert(more[k] == '\'');
                    }
                    if more.contains('\'') && !seen.contains('\'') {
                        let k = choose|k: int| 0 <= k < more.len() && more[k] == '\'';
                        if k < i {
                            assert(seen[k] == '\'');
                        }
                    }
                    if t[i as int] == '\'' {
                        assert(more[i as int] == '\'');
                    }
                }
                if t[i] == '\'' {
                    quote = true;
                }
                i += 1;
            }
            assert(t@.take(i as int) =~= t@);
            if quote {
                out.push('\\');
                push_chars(out, &t);
                assert(out@ =~= old(out)@ + (seq!['\\'] + t@));
            } else {
                out.push('\'');
                push_chars(out, &t);
                out.push('\'');
                assert(out@ =~= old(out)@ + (seq!['\''] + t@ + seq!['\'']));
            }
        },
    }
}

fn write_word(out: &mut Vec<char>, word: &Word)
    ensures
        final(out)@ == old(out)@ + display_word(word.deep_view()),
{
    let ghost w = word.deep_view();
    let mut i: usize = 0;
    assert(w.skip(0) =~= w);
    while i < word.len()
        invariant
            i <= word.len(),
            w == word.deep_view(),
            out@ + display_word(w.skip(i as int)) == old(out)@ + display_word(w),
        decreases word.len() - i,
    {
        let ghost before = out@;
        let ghost rest = w.skip(i as int);
        assert(rest[0] == word[i as int]@);
        assert(rest.skip(1) =~= w.skip(i + 1));
        write_segment(out, &word[i]);
        assert(out@ + display_word(w.skip(i + 1)) =~= before + display_word(rest));
        i += 1;
    }
    assert(display_word(w.skip(i as int)) =~= Seq::<char>::empty());
    assert(out@ =~= old(out)@ + display_word(w));
}

fn is_doubled(a: &Word, b: &Word) -> (r: bool)
    ensures
        r == written_together(a.deep_view(), b.deep_view()),
{
    if is_background_word(a) {
        is_background_word(b)
    } else if is_pipe_word(a) {
        is_pipe_word(b)
    } else {
        false
    }
}

/// Writes a list of words out as a line: each segment in the quoting
/// that makes the tokenizer read it back, one space between two words,
/// but none inside `&&` and `||`.
pub fn write_words(words: &[Word]) -> (r: String)
    ensures
        r@ == display_words(words.deep_view()),
{
    let ghost ws = words.deep_view();
    let mut out: Vec<char> = Vec::new();
    let mut i: usize = 0;
    assert(ws.skip(0) =~= ws);
    assert(out@ + display_words(ws) =~= display_words(ws));
    while i < words.len()
        invariant
            i <= words.len(),
            ws == words.deep_view(),
            out@ + display_words(ws.skip(i as int)) == display_words(ws),
        decreases words.len() - i,
    {
        let ghost before = out@;
        let ghost rest = ws.skip(i as int);
        assert(rest[0] == words[i as int].deep_view());
        assert(rest.skip(1) =~= ws.skip(i + 1));
        write_word(&mut out, &words[i]);
        if i + 1 < words.len() {
            assert(rest[1] == words[i + 1].deep_view());
            if !is_doubled(&words[i], &words[i + 1]) {
                out.push(' ');
            }
            assert(out@ + display_words(ws.skip(i + 1)) =~= before + display_words(rest));
        } else {
            assert(ws.skip(i + 1).len() == 0);
            assert(out@ + display_words(ws.skip(i + 1)) =~= before + display_words(rest));
        }
        i += 1;
    }
    assert(display_words(ws.skip(i as int)) =~= Seq::<char>::empty());
    assert(out@ =~= display_words(ws));
    string_of(&out)
}

fn operator_word(c: char) -> (r: Word)
    ensures
        r.deep_view() == bare_word(seq![c]),
{
    let mut text: Vec<char> = Vec::new();
    text.push(c);
    assert(text@ =~= seq![c]);
    let mut word: Word = Vec::new();
    word.push(WordSegment::Unquoted(string_of(&text)));
    assert(word.deep_view() =~= bare_word(seq![c]));
    word
}

/// Writes a chain out as a line: the words of its entries and, between
/// two entries, the connector of the second, as `;`, `&&` or `||`.
pub fn write_chain(entries: &[ChainEntry]) -> (r: String)
    ensures
        r@ == display_chain(entries.deep_view()),
{
    let ghost chain = entries.deep_view();
    let mut words: Vec<Word> = Vec::new();
    let mut i: usize = 0;
    assert(words.deep_view() =~= chain_words(chain.take(0)));
    while i < entries.len()
        invariant
            i <= entries.len(),
            chain == entries.deep_view(),
            words.deep_view() == chain_words(chain.take(i as int)),
        decreases entries.len() - i,
    {
        let ghost before = words.deep_view();
        let ghost entry = chain[i as int];
        assert(entry == entries[i as int]@);
        assert(chain.take(i + 1).drop_last() =~= chain.take(i as int));
        assert(chain.take(i + 1).last() == entry);
        if i > 0 {
            match entries[i].connector {
                Connector::Sequence => {
                    words.push(operator_word(';'));
                },
                Connector::And => {
                    words.push(operator_word('&'));
                    words.push(operator_word('&'));
                },
                Connector::Or => {
                    words.push(operator_word('|'));
                    words.push(operator_word('|'));
                },
            }
            assert(words.deep_view() =~= before + connector_words(entry.connector));
        }
        let ghost joined = words.deep_view();
        let mut k: usize = 0;
        assert(entry.words.take(0) =~= Seq::<Seq<Segment>>::empty());
        assert(joined + entry.words.take(0) =~= joined);
        while k < entries[i].words.len()
            invariant
                k <= entries[i as int].words.len(),
                i < entries.len(),
                entry == entries[i as int]@,
                words.deep_view() == joined + entry.words.take(k as int),
            decreases entries[i as int].words.len() - k,
        {
            let ghost so_far = words.deep_view();
            assert(entry.words[k as int] == entries[i as int].words[k as int].deep_view());
            words.push(clone_word(&entries[i].words[k]));
            assert(entry.words.take(k + 1) =~= entry.words.take(k as int).push(entry.words[k as int]));
            assert(words.deep_view() =~= so_far.push(entry.words[k as int]));
            k += 1;
        }
        assert(entry.words.take(k as int) =~= entry.words);
        proof {
            if i == 0 {
                assert(chain.take(1)[0] == entry);
                assert(before =~= Seq::<Seq<Segment>>::empty());
                assert(words.deep_view() =~= entry.words);
            }
        }
        i += 1;
    }
    assert(chain.take(i as int) =~= chain);
    write_words(words.as_slice())
}

} // verus!
