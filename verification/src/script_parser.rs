//! Chain splitter: cuts a word list at `&&`, `||` and `;` into entries.

use vstd::prelude::*;
use vstd::string::StringExecFns;
use crate::ast::{ChainEntry, ChainEntryView, Connector};
use crate::parser::{bare_word, is_background, is_background_word, is_pipe, is_pipe_word, Segment, Word, WordSegment};
use crate::text::chars_of;

verus! {

/// The operator text of a connector.
pub open spec fn connector_text(c: Connector) -> Seq<char> {
    match c {
        Connector::Sequence => seq![';'],
        Connector::And => seq!['&', '&'],
        Connector::Or => seq!['|', '|'],
    }
}

/// The connector that a single word spells, if it is a chain operator.
pub open spec fn chain_op_spec(word: Seq<Segment>) -> Option<Connector> {
    if word == bare_word(connector_text(Connector::And)) {
        Some(Connector::And)
    } else if word == bare_word(connector_text(Connector::Or)) {
        Some(Connector::Or)
    } else if word == bare_word(connector_text(Connector::Sequence)) {
        Some(Connector::Sequence)
    } else {
        None
    }
}

/// The connector that starts at word `i`, with the number of words it
/// takes. The tokenizer hands `&&` and `||` over as two operator words, so
/// two `&` in a row read as `&&`, and two `|` in a row as `||`; a single
/// word that spells an operator counts as well.
pub open spec fn connector_at(words: Seq<Seq<Segment>>, i: int) -> Option<(Connector, int)> {
    if chain_op_spec(words[i]) is Some {
        Some((chain_op_spec(words[i])->0, 1))
    } else if i + 1 < words.len() && is_background(words[i]) && is_background(words[i + 1]) {
        Some((Connector::And, 2))
    } else if i + 1 < words.len() && is_pipe(words[i]) && is_pipe(words[i + 1]) {
        Some((Connector::Or, 2))
    } else {
        None
    }
}

/// What is wrong with the connectors of a word list.
pub enum ChainError {
    /// The connector has no command before it.
    Unexpected(Connector),
    /// The line ends in the connector.
    ExpectedAfter(Connector),
}

pub open spec fn chain_error_message(e: ChainError) -> Seq<char> {
    match e {
        ChainError::Unexpected(c) => "jsh: syntax error near unexpected token `"@ + connector_text(c)
            + "'"@,
        ChainError::ExpectedAfter(c) => "jsh: syntax error: expected command after `"@
            + connector_text(c) + "'"@,
    }
}

/// The chain read from word `i` on, where `entries` are complete, `current`
/// holds the words of the entry under construction and `next` is the
/// connector that gates it.
pub open spec fn chain_from(
    words: Seq<Seq<Segment>>,
    i: int,
    entries: Seq<ChainEntryView>,
    current: Seq<Seq<Segment>>,
    next: Connector,
) -> Result<Seq<ChainEntryView>, ChainError>
    decreases words.len() - i,
{
    if 0 <= i < words.len() {
        match connector_at(words, i) {
            Some((c, width)) => {
                if current.len() == 0 {
                    Err(ChainError::Unexpected(c))
                } else if width == 1 {
                    chain_from(
                        words,
                        i + 1,
                        entries.push(ChainEntryView { words: current, connector: next }),
                        Seq::empty(),
                        c,
                    )
                } else {
                    chain_from(
                        words,
                        i + 2,
                        entries.push(ChainEntryView { words: current, connector: next }),
                        Seq::empty(),
                        c,
                    )
                }
            },
            None => chain_from(words, i + 1, entries, current.push(words[i]), next),
        }
    } else if current.len() == 0 {
        if entries.len() == 0 {
            Ok(Seq::empty())
        } else {
            Err(ChainError::ExpectedAfter(next))
        }
    } else {
        Ok(entries.push(ChainEntryView { words: current, connector: next }))
    }
}

/// The chain that a word list spells: its entries, each with the connector
/// that stood before it (the first one with `Sequence`), or the connector
/// that lacks a command.
pub open spec fn parse_chain_spec(words: Seq<Seq<Segment>>) -> Result<Seq<ChainEntryView>, ChainError> {
    chain_from(words, 0, Seq::empty(), Seq::empty(), Connector::Sequence)
}

fn is_bare_text(word: &Word, a: char, b: char) -> (r: bool)
    ensures
        r == (word.deep_view() == bare_word(seq![a, b])),
{
    if word.len() != 1 {
        assert(word.deep_view().len() != bare_word(seq![a, b]).len());
        return false;
    }
    match &word[0] {
        WordSegment::Unquoted(token) => {
            let cs = chars_of(token.as_str());
            let r = cs.len() == 2 && cs[0] == a && cs[1] == b;
            proof {
                let w = word.deep_view();
                assert(w[0] == Segment::Unquoted(cs@));
                if r {
                    assert(cs@ =~= seq![a, b]);
                    assert(w =~= bare_word(seq![a, b]));
                } else if w == bare_word(seq![a, b]) {
                    assert(bare_word(seq![a, b])[0] == Segment::Unquoted(seq![a, b]));
                    assert(cs@ == seq![a, b]);
                }
            }
            r
        },
        _ => {
            proof {
                let w = word.deep_view();
                assert(w[0] == word[0]@);
                if w == bare_word(seq![a, b]) {
                    assert(bare_word(seq![a, b])[0] == Segment::Unquoted(seq![a, b]));
                }
            }
            false
        },
    }
}

fn is_semicolon(word: &Word) -> (r: bool)
    ensures
        r == (word.deep_view() == bare_word(seq![';'])),
{
    if word.len() != 1 {
        assert(word.deep_view().len() != bare_word(seq![';']).len());
        return false;
    }
    match &word[0] {
        WordSegment::Unquoted(token) => {
            let cs = chars_of(token.as_str());
            let r = cs.len() == 1 && cs[0] == ';';
            proof {
                let w = word.deep_view();
                assert(w[0] == Segment::Unquoted(cs@));
                if r {
                    assert(cs@ =~= seq![';']);
                    assert(w =~= bare_word(seq![';']));
                } else if w == bare_word(seq![';']) {
                    assert(bare_word(seq![';'])[0] == Segment::Unquoted(seq![';']));
                    assert(cs@ == seq![';']);
                }
            }
            r
        },
        _ => {
            proof {
                let w = word.deep_view();
                assert(w[0] == word[0]@);
                if w == bare_word(seq![';']) {
                    assert(bare_word(seq![';'])[0] == Segment::Unquoted(seq![';']));
                }
            }
            false
        },
    }
}

/// If `word` is a chain operator token (`&&`, `||` or `;`), returns its
/// connector, and `None` for every other word.
pub fn chain_op(word: &Word) -> (r: Option<Connector>)
    ensures
        r == chain_op_spec(word.deep_view()),
{
    if is_bare_text(word, '&', '&') {
        Some(Connector::And)
    } else if is_bare_text(word, '|', '|') {
        Some(Connector::Or)
    } else if is_semicolon(word) {
        Some(Connector::Sequence)
    } else {
        None
    }
}

/// The operator that a connector is written as.
pub fn connector_display(c: &Connector) -> (r: &'static str)
    ensures
        r@ == connector_text(*c),
{
    match c {
        Connector::Sequence => {
            proof {
                reveal_strlit(";");
            }
            assert(";"@ =~= seq![';']);
            ";"
        },
        Connector::And => {
            proof {
                reveal_strlit("&&");
            }
            assert("&&"@ =~= seq!['&', '&']);
            "&&"
        },
        Connector::Or => {
            proof {
                reveal_strlit("||");
            }
            assert("||"@ =~= seq!['|', '|']);
            "||"
        },
    }
}

fn connector_starting(words: &Vec<Word>, i: usize) -> (r: Option<(Connector, usize)>)
    requires
        i < words.len(),
    ensures
        match connector_at(words.deep_view(), i as int) {
            Some((c, w)) => r == Some((c, w as usize)) && (w == 1 || w == 2) && i + w <= words.len(),
            None => r is None,
        },
{
    match chain_op(&words[i]) {
        Some(c) => Some((c, 1)),
        None => {
            if i + 1 < words.len() && is_background_word(&words[i]) && is_background_word(
                &words[i + 1],
            ) {
                Some((Connector::And, 2))
            } else if i + 1 < words.len() && is_pipe_word(&words[i]) && is_pipe_word(&words[i + 1]) {
                Some((Connector::Or, 2))
            } else {
                None
            }
        },
    }
}

fn syntax_error(prefix: &str, c: &Connector) -> (r: String)
    ensures
        r@ == prefix@ + connector_text(*c) + "'"@,
{
    let mut msg = String::from_str(prefix);
    msg.append(connector_display(c));
    msg.append("'");
    msg
}

/// Splits a flat word list at the chain operators into entries, each with
/// the connector that gates it.
///
/// The first entry runs unconditionally; each later one carries the
/// connector that stood before it. A connector with no command before it,
/// or at the end of the line, is a syntax error. An empty list gives an
/// empty chain.
pub fn parse_chain(words: Vec<Word>) -> (r: Result<Vec<ChainEntry>, String>)
    ensures
        match parse_chain_spec(words.deep_view()) {
            Ok(entries) => r is Ok && r->Ok_0.deep_view() == entries,
            Err(e) => r is Err && r->Err_0@ == chain_error_message(e),
        },
{
    let ghost ws = words.deep_view();
    let mut pending = words;
    let mut entries: Vec<ChainEntry> = Vec::new();
    let mut current: Vec<Word> = Vec::new();
    let mut next_connector = Connector::Sequence;
    let mut i: usize = 0;
    assert(entries.deep_view() =~= Seq::empty());
    assert(current.deep_view() =~= Seq::empty());
    while i < pending.len()
        invariant
            i <= pending.len(),
            ws == words.deep_view(),
            pending.len() == ws.len(),
            forall|j: int| i <= j < pending.len() ==> pending[j].deep_view() == ws[j],
            chain_from(ws, i as int, entries.deep_view(), current.deep_view(), next_connector)
                == parse_chain_spec(ws),
        decreases pending.len() - i,
    {
        let ghost entries0 = entries.deep_view();
        let ghost current0 = current.deep_view();
        assert(pending[i as int].deep_view() == ws[i as int]);
        proof {
            if i + 1 < pending.len() {
                assert(pending[i + 1].deep_view() == ws[i + 1]);
            }
            assert(connector_at(pending.deep_view(), i as int) == connector_at(ws, i as int)) by {
                assert(pending.deep_view()[i as int] == ws[i as int]);
                if i + 1 < pending.len() {
                    assert(pending.deep_view()[i + 1] == ws[i + 1]);
                }
            }
        }
        match connector_starting(&pending, i) {
            Some((connector, width)) => {
                if current.len() == 0 {
                    assert(current0.len() == 0);
                    assert(chain_from(ws, i as int, entries0, current0, next_connector) == Err::<
                        Seq<ChainEntryView>,
                        ChainError,
                    >(ChainError::Unexpected(connector)));
                    return Err(syntax_error("jsh: syntax error near unexpected token `", &connector));
                }
                let mut done: Vec<Word> = Vec::new();
                std::mem::swap(&mut current, &mut done);
                let entry = ChainEntry { words: done, connector: next_connector };
                entries.push(entry);
                assert(entries.deep_view() =~= entries0.push(
                    ChainEntryView { words: current0, connector: next_connector },
                ));
                assert(current.deep_view() =~= Seq::empty());
                next_connector = connector;
                i += width;
            },
            None => {
                let mut word: Word = Vec::new();
                std::mem::swap(&mut pending[i], &mut word);
                current.push(word);
                assert(current.deep_view() =~= current0.push(ws[i as int]));
                i += 1;
            },
        }
    }
    if current.len() == 0 {
        if entries.len() == 0 {
            return Ok(entries);
        }
        return Err(syntax_error("jsh: syntax error: expected command after `", &next_connector));
    }
    let ghost entries0 = entries.deep_view();
    let ghost current0 = current.deep_view();
    entries.push(ChainEntry { words: current, connector: next_connector });
    assert(entries.deep_view() =~= entries0.push(
        ChainEntryView { words: current0, connector: next_connector },
    ));
    Ok(entries)
}


// ── Laws ─────────────────────────────────────────────────────────────────

/// The words that a connector is written as: `;` as one word, `&&` and
/// `||` as the tokenizer hands them over, as two operator words.
pub open spec fn connector_words(c: Connector) -> Seq<Seq<Segment>> {
    match c {
        Connector::Sequence => seq![bare_word(seq![';'])],
        Connector::And => seq![bare_word(seq!['&']), bare_word(seq!['&'])],
        Connector::Or => seq![bare_word(seq!['|']), bare_word(seq!['|'])],
    }
}

/// A chain written out as words: the words of its entries, with the
/// connector of each entry but the first before it.
pub open spec fn chain_words(chain: Seq<ChainEntryView>) -> Seq<Seq<Segment>>
    decreases chain.len(),
{
    if chain.len() == 0 {
        Seq::empty()
    } else if chain.len() == 1 {
        chain[0].words
    } else {
        chain_words(chain.drop_last()) + connector_words(chain.last().connector)
            + chain.last().words
    }
}

/// Whether no word spells `&&` or `||` by itself. The tokenizer never
/// gives such a word: it hands each `&` and `|` over as a word of its own.
pub open spec fn no_double_operator_word(words: Seq<Seq<Segment>>) -> bool {
    forall|k: int|
        0 <= k < words.len() ==> #[trigger] words[k] != bare_word(seq!['&', '&']) && words[k]
            != bare_word(seq!['|', '|'])
}

/// What was read so far, written out again: the complete entries, then,
/// if there are any, the connector that gates the entry under
/// construction, then the words of that entry.
pub open spec fn read_so_far(entries: Seq<ChainEntryView>, current: Seq<Seq<Segment>>, next: Connector) -> Seq<
    Seq<Segment>,
> {
    if entries.len() == 0 {
        current
    } else {
        chain_words(entries) + connector_words(next) + current
    }
}

proof fn lemma_chain_words_push(entries: Seq<ChainEntryView>, current: Seq<Seq<Segment>>, next: Connector)
    ensures
        chain_words(entries.push(ChainEntryView { words: current, connector: next })) == read_so_far(
            entries,
            current,
            next,
        ),
{
    let grown = entries.push(ChainEntryView { words: current, connector: next });
    assert(grown.drop_last() =~= entries);
    if entries.len() == 0 {
        assert(grown[0].words == current);
    }
}

proof fn lemma_chain_from_rewrites(
    words: Seq<Seq<Segment>>,
    i: int,
    entries: Seq<ChainEntryView>,
    current: Seq<Seq<Segment>>,
    next: Connector,
)
    requires
        0 <= i <= words.len(),
        no_double_operator_word(words),
        read_so_far(entries, current, next) == words.take(i),
        chain_from(words, i, entries, current, next) is Ok,
    ensures
        chain_words(chain_from(words, i, entries, current, next)->Ok_0) == words,
    decreases words.len() - i,
{
    if i < words.len() {
        let closed = entries.push(ChainEntryView { words: current, connector: next });
        match connector_at(words, i) {
            Some((c, width)) => {
                lemma_chain_words_push(entries, current, next);
                assert(chain_op_spec(words[i]) is Some ==> c == Connector::Sequence);
                if width == 1 {
                    assert(words.take(i + 1) =~= words.take(i) + connector_words(c) + Seq::<
                        Seq<Segment>,
                    >::empty()) by {
                        assert(connector_words(c) =~= seq![words[i]]);
                    }
                    lemma_chain_from_rewrites(words, i + 1, closed, Seq::empty(), c);
                } else {
                    assert(words.take(i + 2) =~= words.take(i) + connector_words(c) + Seq::<
                        Seq<Segment>,
                    >::empty()) by {
                        assert(connector_words(c) =~= seq![words[i], words[i + 1]]);
                    }
                    lemma_chain_from_rewrites(words, i + 2, closed, Seq::empty(), c);
                }
            },
            None => {
                assert(words.take(i + 1) =~= words.take(i).push(words[i]));
                assert(read_so_far(entries, current.push(words[i]), next) =~= read_so_far(
                    entries,
                    current,
                    next,
                ).push(words[i]));
                lemma_chain_from_rewrites(words, i + 1, entries, current.push(words[i]), next);
            },
        }
    } else {
        assert(words.take(i) =~= words);
        if current.len() > 0 {
            lemma_chain_words_push(entries, current, next);
        } else {
            assert(entries.len() == 0);
        }
    }
}

/// Writing a chain out and reading it again gives the same chain: where
/// a list of words as the tokenizer gives them parses into a chain, the
/// chain written out is that list of words, so that it parses into the
/// same chain.
pub proof fn lemma_chain_round_trip(words: Seq<Seq<Segment>>)
    requires
        no_double_operator_word(words),
        parse_chain_spec(words) is Ok,
    ensures
        chain_words(parse_chain_spec(words)->Ok_0) == words,
        parse_chain_spec(chain_words(parse_chain_spec(words)->Ok_0)) == parse_chain_spec(words),
{
    assert(words.take(0) =~= Seq::<Seq<Segment>>::empty());
    lemma_chain_from_rewrites(words, 0, Seq::empty(), Seq::empty(), Connector::Sequence);
}

} // verus!
