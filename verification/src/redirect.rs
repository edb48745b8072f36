//! Redirection extractor: separates redirect operators and their operands
//! from the arguments of a command.

use vstd::prelude::*;
use vstd::string::StringExecFns;
use crate::env::Environment;
use crate::expander::{any_globbed, context_of, expand_word, word_partials, Context};
use crate::parser::{clone_word, Segment, Word, WordSegment};
use crate::text::{chars_of, digit_value, parse_i32, parse_i32_spec, slice_chars, str_eq, string_of};

verus! {

/// What a file descriptor should be connected to.
#[derive(Debug, Clone)]
pub enum RedirectTarget {
    /// Write to file (truncate).
    File(String),
    /// Write to file (append).
    FileAppend(String),
    /// Read from file.
    FileRead(String),
    /// Duplicate another descriptor (as in `2>&1`).
    Fd(i32),
    /// Feed a string as stdin.
    HereString(String),
}

/// The mathematical value of a [`RedirectTarget`].
pub enum TargetView {
    File(Seq<char>),
    FileAppend(Seq<char>),
    FileRead(Seq<char>),
    Fd(i32),
    HereString(Seq<char>),
}

impl View for RedirectTarget {
    type V = TargetView;

    open spec fn view(&self) -> TargetView {
        match *self {
            RedirectTarget::File(p) => TargetView::File(p@),
            RedirectTarget::FileAppend(p) => TargetView::FileAppend(p@),
            RedirectTarget::FileRead(p) => TargetView::FileRead(p@),
            RedirectTarget::Fd(n) => TargetView::Fd(n),
            RedirectTarget::HereString(t) => TargetView::HereString(t@),
        }
    }
}

/// A single I/O redirection instruction.
#[derive(Debug, Clone)]
pub struct Redirection {
    pub fd: i32,
    pub target: RedirectTarget,
}

/// The mathematical value of a [`Redirection`].
pub struct RedirectionView {
    pub fd: i32,
    pub target: TargetView,
}

impl View for Redirection {
    type V = RedirectionView;

    open spec fn view(&self) -> RedirectionView {
        RedirectionView { fd: self.fd, target: self.target@ }
    }
}

impl DeepView for Redirection {
    type V = RedirectionView;

    open spec fn deep_view(&self) -> RedirectionView {
        self@
    }
}

// ── Plain tokens ─────────────────────────────────────────────────────────

/// What the operand after an operator is taken as.
#[derive(Debug, Clone, Copy, PartialEq, Eq, Structural)]
pub enum OperandKind {
    /// A file to write, truncating it.
    Truncate,
    /// A file to append to.
    Append,
    /// A file to read.
    Read,
    /// The text of a here-string.
    Here,
}

/// The redirection of descriptor `fd` to `operand`, taken as `kind`.
pub open spec fn with_operand(fd: i32, kind: OperandKind, operand: Seq<char>) -> RedirectionView {
    RedirectionView {
        fd,
        target: match kind {
            OperandKind::Truncate => TargetView::File(operand),
            OperandKind::Append => TargetView::FileAppend(operand),
            OperandKind::Read => TargetView::FileRead(operand),
            OperandKind::Here => TargetView::HereString(operand),
        },
    }
}

/// What a plain token means to the extractor.
pub enum TokenRole {
    /// A redirection complete in itself (`2>&1`, `2>file`).
    Complete(RedirectionView),
    /// An operator whose operand is the next token.
    Operator { fd: i32, kind: OperandKind },
    /// An ordinary argument.
    Argument,
}

/// The role of a token that starts with the descriptor digit of `fd` and
/// `>`, where `rest` is what follows these two characters and `other` the
/// descriptor that `&` may name.
pub open spec fn prefixed_role(fd: i32, other: i32, rest: Seq<char>) -> TokenRole {
    if rest == seq!['&', digit_of(other)] {
        TokenRole::Complete(RedirectionView { fd, target: TargetView::Fd(other) })
    } else if rest == seq!['>'] {
        TokenRole::Operator { fd, kind: OperandKind::Append }
    } else if rest.len() == 0 {
        TokenRole::Operator { fd, kind: OperandKind::Truncate }
    } else {
        TokenRole::Complete(RedirectionView { fd, target: TargetView::File(rest) })
    }
}

/// The digit of descriptor 1 or 2.
pub open spec fn digit_of(fd: i32) -> char {
    if fd == 1 {
        '1'
    } else {
        '2'
    }
}

pub open spec fn starts_with(s: Seq<char>, prefix: Seq<char>) -> bool {
    prefix.len() <= s.len() && s.take(prefix.len() as int) == prefix
}

/// The role of a plain token: `2>`, `2>>`, `2>&1`, `2>path` and the same
/// with `1` (and `&2`); `>`, `>>`, `>&1`, `>&2`, `<`, `<<<`; anything else
/// is an argument.
pub open spec fn token_role(t: Seq<char>) -> TokenRole {
    if starts_with(t, seq!['2', '>']) {
        prefixed_role(2, 1, t.skip(2))
    } else if starts_with(t, seq!['1', '>']) {
        prefixed_role(1, 2, t.skip(2))
    } else if t == seq!['>'] {
        TokenRole::Operator { fd: 1, kind: OperandKind::Truncate }
    } else if t == seq!['>', '>'] {
        TokenRole::Operator { fd: 1, kind: OperandKind::Append }
    } else if t == seq!['>', '&', '1'] {
        TokenRole::Complete(RedirectionView { fd: 1, target: TargetView::Fd(1) })
    } else if t == seq!['>', '&', '2'] {
        TokenRole::Complete(RedirectionView { fd: 1, target: TargetView::Fd(2) })
    } else if t == seq!['<'] {
        TokenRole::Operator { fd: 0, kind: OperandKind::Read }
    } else if t == seq!['<', '<', '<'] {
        TokenRole::Operator { fd: 0, kind: OperandKind::Here }
    } else {
        TokenRole::Argument
    }
}

/// The message for an operator that stands last, without its operand.
pub open spec fn missing_operand_message(op: Seq<char>) -> Seq<char> {
    "jsh: syntax error: expected filename after '"@ + op + "'"@
}

/// Arguments and redirections of the tokens from `i` on, after `args` and
/// `redirs` were collected; or the operator token that lacks its operand.
pub open spec fn extract_from(
    tokens: Seq<Seq<char>>,
    i: int,
    args: Seq<Seq<char>>,
    redirs: Seq<RedirectionView>,
) -> Result<(Seq<Seq<char>>, Seq<RedirectionView>), Seq<char>>
    decreases tokens.len() - i,
{
    if 0 <= i < tokens.len() {
        match token_role(tokens[i]) {
            TokenRole::Complete(r) => extract_from(tokens, i + 1, args, redirs.push(r)),
            TokenRole::Operator { fd, kind } => {
                if i + 1 < tokens.len() {
                    extract_from(
                        tokens,
                        i + 2,
                        args,
                        redirs.push(with_operand(fd, kind, tokens[i + 1])),
                    )
                } else {
                    Err(tokens[i])
                }
            },
            TokenRole::Argument => extract_from(tokens, i + 1, args.push(tokens[i]), redirs),
        }
    } else {
        Ok((args, redirs))
    }
}

/// What [`extract_redirections`] yields: the arguments in order, the
/// redirections in order, or the operator that ends the list.
pub open spec fn extract_spec(tokens: Seq<Seq<char>>) -> Result<
    (Seq<Seq<char>>, Seq<RedirectionView>),
    Seq<char>,
> {
    extract_from(tokens, 0, Seq::empty(), Seq::empty())
}

/// An executable token role; the path of a complete redirection is owned.
enum Role {
    Complete(Redirection),
    Operator { fd: i32, kind: OperandKind },
    Argument,
}

impl Role {
    spec fn view(&self) -> TokenRole {
        match *self {
            Role::Complete(r) => TokenRole::Complete(r@),
            Role::Operator { fd, kind } => TokenRole::Operator { fd, kind },
            Role::Argument => TokenRole::Argument,
        }
    }
}

fn has_prefix2(t: &Vec<char>, a: char, b: char) -> (r: bool)
    ensures
        r == starts_with(t@, seq![a, b]),
{
    let r = t.len() >= 2 && t[0] == a && t[1] == b;
    proof {
        if r {
            assert(t@.take(2) =~= seq![a, b]);
        } else if starts_with(t@, seq![a, b]) {
            assert(t@.take(2)[0] == a);
            assert(t@.take(2)[1] == b);
        }
    }
    r
}

fn is_text1(t: &Vec<char>, a: char) -> (r: bool)
    ensures
        r == (t@ == seq![a]),
{
    let r = t.len() == 1 && t[0] == a;
    proof {
        if r {
            assert(t@ =~= seq![a]);
        } else if t@ == seq![a] {
            assert(seq![a][0] == a);
        }
    }
    r
}

fn is_text2(t: &Vec<char>, a: char, b: char) -> (r: bool)
    ensures
        r == (t@ == seq![a, b]),
{
    let r = t.len() == 2 && t[0] == a && t[1] == b;
    proof {
        if r {
            assert(t@ =~= seq![a, b]);
        } else if t@ == seq![a, b] {
            assert(seq![a, b][0] == a);
            assert(seq![a, b][1] == b);
        }
    }
    r
}

fn is_text3(t: &Vec<char>, a: char, b: char, c: char) -> (r: bool)
    ensures
        r == (t@ == seq![a, b, c]),
{
    let r = t.len() == 3 && t[0] == a && t[1] == b && t[2] == c;
    proof {
        if r {
            assert(t@ =~= seq![a, b, c]);
        } else if t@ == seq![a, b, c] {
            assert(seq![a, b, c][0] == a);
            assert(seq![a, b, c][1] == b);
            assert(seq![a, b, c][2] == c);
        }
    }
    r
}

fn role_of_prefixed(fd: i32, other: i32, rest: &Vec<char>) -> (r: Role)
    requires
        (fd == 1 && other == 2) || (fd == 2 && other == 1),
    ensures
        r.view() == prefixed_role(fd, other, rest@),
{
    let digit = if other == 1 {
        '1'
    } else {
        '2'
    };
    if is_text2(rest, '&', digit) {
        Role::Complete(Redirection { fd, target: RedirectTarget::Fd(other) })
    } else if is_text1(rest, '>') {
        Role::Operator { fd, kind: OperandKind::Append }
    } else if rest.len() == 0 {
        Role::Operator { fd, kind: OperandKind::Truncate }
    } else {
        Role::Complete(Redirection { fd, target: RedirectTarget::File(string_of(rest)) })
    }
}

fn role_of(t: &Vec<char>) -> (r: Role)
    ensures
        r.view() == token_role(t@),
{
    if has_prefix2(t, '2', '>') {
        let rest = slice_chars(t, 2, t.len());
        assert(rest@ =~= t@.skip(2));
        role_of_prefixed(2, 1, &rest)
    } else if has_prefix2(t, '1', '>') {
        let rest = slice_chars(t, 2, t.len());
        assert(rest@ =~= t@.skip(2));
        role_of_prefixed(1, 2, &rest)
    } else if is_text1(t, '>') {
        Role::Operator { fd: 1, kind: OperandKind::Truncate }
    } else if is_text2(t, '>', '>') {
        Role::Operator { fd: 1, kind: OperandKind::Append }
    } else if is_text3(t, '>', '&', '1') {
        Role::Complete(Redirection { fd: 1, target: RedirectTarget::Fd(1) })
    } else if is_text3(t, '>', '&', '2') {
        Role::Complete(Redirection { fd: 1, target: RedirectTarget::Fd(2) })
    } else if is_text1(t, '<') {
        Role::Operator { fd: 0, kind: OperandKind::Read }
    } else if is_text3(t, '<', '<', '<') {
        Role::Operator { fd: 0, kind: OperandKind::Here }
    } else {
        Role::Argument
    }
}

fn redirection_with_operand(fd: i32, kind: OperandKind, operand: String) -> (r: Redirection)
    ensures
        r@ == with_operand(fd, kind, operand@),
{
    let target = match kind {
        OperandKind::Truncate => RedirectTarget::File(operand),
        OperandKind::Append => RedirectTarget::FileAppend(operand),
        OperandKind::Read => RedirectTarget::FileRead(operand),
        OperandKind::Here => RedirectTarget::HereString(operand),
    };
    Redirection { fd, target }
}

/// The token at `i`, or the error that names the operator before it.
fn expect_filename(i: usize, tokens: &[String], operator: &str) -> (r: Result<String, String>)
    ensures
        match r {
            Ok(name) => i < tokens.len() && name@ == tokens[i as int]@,
            Err(msg) => i >= tokens.len() && msg@ == missing_operand_message(operator@),
        },
{
    if i < tokens.len() {
        Ok(tokens[i].clone())
    } else {
        let mut msg = String::from_str("jsh: syntax error: expected filename after '");
        msg.append(operator);
        msg.append("'");
        Err(msg)
    }
}

/// Separates redirect operators from regular arguments of plain tokens.
///
/// Handles `>`, `>>`, `<`, `<<<`, `>&1`, `>&2`, and with a descriptor
/// before them `1>`, `1>>`, `1>&2`, `1>path`, `2>`, `2>>`, `2>&1`,
/// `2>path`. An operator that needs an operand takes the next token,
/// whatever it is; if none is left, the error names the operator.
pub fn extract_redirections(tokens: &[String]) -> (r: Result<(Vec<String>, Vec<Redirection>), String>)
    ensures
        match extract_spec(tokens.deep_view()) {
            Ok((args, redirs)) => r is Ok && r->Ok_0.0.deep_view() == args
                && r->Ok_0.1.deep_view() == redirs,
            Err(op) => r is Err && r->Err_0@ == missing_operand_message(op),
        },
{
    let ghost ts = tokens.deep_view();
    let mut args: Vec<String> = Vec::new();
    let mut redirections: Vec<Redirection> = Vec::new();
    let mut i: usize = 0;
    assert(args.deep_view() =~= Seq::empty());
    assert(redirections.deep_view() =~= Seq::empty());
    while i < tokens.len()
        invariant
            i <= tokens.len(),
            ts == tokens.deep_view(),
            extract_from(ts, i as int, args.deep_view(), redirections.deep_view()) == extract_spec(ts),
        decreases tokens.len() - i,
    {
        let ghost args0 = args.deep_view();
        let ghost redirs0 = redirections.deep_view();
        let token = &tokens[i];
        assert(ts[i as int] == token@);
        let chars = chars_of(token.as_str());
        match role_of(&chars) {
            Role::Complete(r) => {
                redirections.push(r);
                assert(redirections.deep_view() =~= redirs0.push(r@));
                i += 1;
            },
            Role::Operator { fd, kind } => {
                let operand = match expect_filename(i + 1, tokens, token.as_str()) {
                    Ok(operand) => operand,
                    Err(msg) => {
                        return Err(msg);
                    },
                };
                assert(ts[i + 1] == tokens[i + 1]@);
                let r = redirection_with_operand(fd, kind, operand);
                redirections.push(r);
                assert(redirections.deep_view() =~= redirs0.push(r@));
                i += 2;
            },
            Role::Argument => {
                args.push(token.clone());
                assert(args.deep_view() =~= args0.push(token@));
                i += 1;
            },
        }
    }
    Ok((args, redirections))
}

/// Whether the path names the null device.
pub open spec fn is_null_device_spec(path: Seq<char>) -> bool {
    path == "/dev/null"@
}

/// Checks whether a path refers to the null device.
pub fn is_null_device(path: &str) -> (r: bool)
    ensures
        r == is_null_device_spec(path@),
{
    str_eq(path, "/dev/null")
}


// ── Quote-aware extraction ───────────────────────────────────────────────

/// A redirect operator as read from a word.
#[derive(Debug)]
pub enum ParsedRedirect {
    /// `>` or `>>` on a descriptor; the target is the next word.
    File { fd: i32, append: bool },
    /// `<`; the target is the next word.
    FileRead,
    /// `<<<`; the text is the next word.
    HereString,
    /// `N>&M`.
    Duplicate { fd: i32, target: i32 },
    /// `N>path` or `N>>path`, with the path in the same word.
    FileWithAttachedPath { fd: i32, append: bool, path: String },
}

/// The mathematical value of a [`ParsedRedirect`].
pub enum ParsedView {
    File { fd: i32, append: bool },
    FileRead,
    HereString,
    Duplicate { fd: i32, target: i32 },
    FileWithAttachedPath { fd: i32, append: bool, path: Seq<char> },
}

impl View for ParsedRedirect {
    type V = ParsedView;

    open spec fn view(&self) -> ParsedView {
        match *self {
            ParsedRedirect::File { fd, append } => ParsedView::File { fd, append },
            ParsedRedirect::FileRead => ParsedView::FileRead,
            ParsedRedirect::HereString => ParsedView::HereString,
            ParsedRedirect::Duplicate { fd, target } => ParsedView::Duplicate { fd, target },
            ParsedRedirect::FileWithAttachedPath { fd, append, path } => {
                ParsedView::FileWithAttachedPath { fd, append, path: path@ }
            },
        }
    }
}

/// The view of an optional operator.
pub open spec fn parsed_view(op: Option<ParsedRedirect>) -> Option<ParsedView> {
    match op {
        Some(p) => Some(p@),
        None => None,
    }
}

/// The operator that a token with a descriptor in front spells: `1` or
/// `2`, then `>&M`, `>`, `>>`, `>path` or `>>path`.
pub open spec fn parse_prefixed_spec(token: Seq<char>) -> Option<ParsedView> {
    if token.len() == 0 || (token[0] != '1' && token[0] != '2') {
        None
    } else {
        let fd: i32 = if token[0] == '1' {
            1
        } else {
            2
        };
        let rest = token.skip(1);
        if starts_with(rest, seq!['>', '&']) {
            match parse_i32_spec(rest.skip(2)) {
                Some(target) => Some(ParsedView::Duplicate { fd, target }),
                None => None,
            }
        } else if rest == seq!['>'] {
            Some(ParsedView::File { fd, append: false })
        } else if rest == seq!['>', '>'] {
            Some(ParsedView::File { fd, append: true })
        } else if starts_with(rest, seq!['>', '>']) {
            Some(ParsedView::FileWithAttachedPath { fd, append: true, path: rest.skip(2) })
        } else if rest.len() > 0 && rest[0] == '>' {
            Some(ParsedView::FileWithAttachedPath { fd, append: false, path: rest.skip(1) })
        } else {
            None
        }
    }
}

/// The operator that a token without a descriptor in front spells, or
/// else what it spells with one.
pub open spec fn parse_token_spec(token: Seq<char>) -> Option<ParsedView> {
    if token == seq!['>'] {
        Some(ParsedView::File { fd: 1, append: false })
    } else if token == seq!['>', '>'] {
        Some(ParsedView::File { fd: 1, append: true })
    } else if token == seq!['<'] {
        Some(ParsedView::FileRead)
    } else if token == seq!['<', '<', '<'] {
        Some(ParsedView::HereString)
    } else if token == seq!['>', '&', '1'] {
        Some(ParsedView::Duplicate { fd: 1, target: 1 })
    } else if token == seq!['>', '&', '2'] {
        Some(ParsedView::Duplicate { fd: 1, target: 2 })
    } else {
        parse_prefixed_spec(token)
    }
}

/// The operator that a segment spells; only unquoted text is an operator.
pub open spec fn parse_unprefixed_spec(segment: Segment) -> Option<ParsedView> {
    match segment {
        Segment::Unquoted(token) => parse_token_spec(token),
        _ => None,
    }
}

/// The operator that a word spells: a word of one unquoted segment.
pub open spec fn parse_redirect_word_spec(word: Seq<Segment>) -> Option<ParsedView> {
    if word.len() == 1 {
        parse_unprefixed_spec(word[0])
    } else {
        None
    }
}

/// The descriptor that a word of one unquoted digit names.
pub open spec fn standalone_fd_spec(word: Seq<Segment>) -> Option<i32> {
    if word.len() == 1 {
        match word[0] {
            Segment::Unquoted(token) => {
                if token.len() == 1 && digit_value(token[0]) is Some {
                    Some(digit_value(token[0])->0 as i32)
                } else {
                    None
                }
            },
            _ => None,
        }
    } else {
        None
    }
}

/// The operator with the descriptor `fd` put in front.
pub open spec fn normalize_spec(fd: i32, op: ParsedView) -> ParsedView {
    match op {
        ParsedView::File { fd: _, append } => ParsedView::File { fd, append },
        ParsedView::Duplicate { fd: _, target } => ParsedView::Duplicate { fd, target },
        ParsedView::FileRead => ParsedView::FileRead,
        ParsedView::HereString => ParsedView::HereString,
        ParsedView::FileWithAttachedPath { fd: _, append, path } => {
            ParsedView::FileWithAttachedPath { fd, append, path }
        },
    }
}

/// The operator that a descriptor word at `i` and the operator word after
/// it spell together, as in `2 > file`.
pub open spec fn spaced_op_spec(words: Seq<Seq<Segment>>, i: int) -> Option<ParsedView> {
    if standalone_fd_spec(words[i]) is Some && i + 1 < words.len() && words[i + 1].len() == 1
        && parse_unprefixed_spec(words[i + 1][0]) is Some {
        Some(normalize_spec(standalone_fd_spec(words[i])->0, parse_unprefixed_spec(words[i + 1][0])->0))
    } else {
        None
    }
}

/// Why the words of a command cannot be parted from its redirections.
pub enum WordsError {
    /// An operator stands last; `here` tells a here-string from a file.
    MissingTarget { here: bool },
    /// The target expands to more than one field.
    Ambiguous,
}

pub open spec fn words_error_message(e: WordsError) -> Seq<char> {
    match e {
        WordsError::MissingTarget { here } => {
            if here {
                "jsh: syntax error: expected filename after here-string target"@
            } else {
                "jsh: syntax error: expected filename after redirection target"@
            }
        },
        WordsError::Ambiguous => "jsh: ambiguous redirect target"@,
    }
}

/// The target that the word at `idx` expands to, where it is not globbed:
/// its one field.
pub open spec fn target_spec(words: Seq<Seq<Segment>>, idx: int, here: bool, ctx: Context) -> Result<
    Seq<char>,
    WordsError,
> {
    if idx >= words.len() {
        Err(WordsError::MissingTarget { here })
    } else {
        let partials = word_partials(words[idx], ctx);
        if partials.len() == 1 {
            Ok(partials[0].0)
        } else {
            Err(WordsError::Ambiguous)
        }
    }
}

/// What an operator at `idx`, written in `width` words, adds: the
/// redirection, and the place of the word after it and its target.
pub open spec fn apply_parsed_spec(
    op: ParsedView,
    words: Seq<Seq<Segment>>,
    idx: int,
    width: int,
    ctx: Context,
) -> Result<(RedirectionView, int), WordsError> {
    match op {
        ParsedView::File { fd, append } => match target_spec(words, idx + width, false, ctx) {
            Ok(path) => Ok(
                (
                    with_operand(
                        fd,
                        if append {
                            OperandKind::Append
                        } else {
                            OperandKind::Truncate
                        },
                        path,
                    ),
                    idx + width + 1,
                ),
            ),
            Err(e) => Err(e),
        },
        ParsedView::FileRead => match target_spec(words, idx + width, false, ctx) {
            Ok(path) => Ok((with_operand(0, OperandKind::Read, path), idx + width + 1)),
            Err(e) => Err(e),
        },
        ParsedView::HereString => match target_spec(words, idx + width, true, ctx) {
            Ok(text) => Ok((with_operand(0, OperandKind::Here, text), idx + width + 1)),
            Err(e) => Err(e),
        },
        ParsedView::Duplicate { fd, target } => Ok(
            (RedirectionView { fd, target: TargetView::Fd(target) }, idx + width),
        ),
        ParsedView::FileWithAttachedPath { fd, append, path } => Ok(
            (
                with_operand(
                    fd,
                    if append {
                        OperandKind::Append
                    } else {
                        OperandKind::Truncate
                    },
                    path,
                ),
                idx + width,
            ),
        ),
    }
}

/// Arguments and redirections of the words from `i` on.
pub open spec fn extract_words_from(
    words: Seq<Seq<Segment>>,
    i: int,
    args: Seq<Seq<Segment>>,
    redirs: Seq<RedirectionView>,
    ctx: Context,
) -> Result<(Seq<Seq<Segment>>, Seq<RedirectionView>), WordsError>
    decreases words.len() - i,
{
    if 0 <= i < words.len() {
        let direct = parse_redirect_word_spec(words[i]);
        let spaced = spaced_op_spec(words, i);
        if direct is Some {
            match apply_parsed_spec(direct->0, words, i, 1, ctx) {
                Ok((r, next)) => extract_words_from(words, next, args, redirs.push(r), ctx),
                Err(e) => Err(e),
            }
        } else if spaced is Some {
            match apply_parsed_spec(spaced->0, words, i, 2, ctx) {
                Ok((r, next)) => extract_words_from(words, next, args, redirs.push(r), ctx),
                Err(e) => Err(e),
            }
        } else {
            extract_words_from(words, i + 1, args.push(words[i]), redirs, ctx)
        }
    } else {
        Ok((args, redirs))
    }
}

/// What [`extract_redirections_from_words`] yields where no target is
/// globbed.
pub open spec fn extract_words_spec(words: Seq<Seq<Segment>>, ctx: Context) -> Result<
    (Seq<Seq<Segment>>, Seq<RedirectionView>),
    WordsError,
> {
    extract_words_from(words, 0, Seq::empty(), Seq::empty(), ctx)
}

/// Whether no word would be matched against the file system if it were a
/// target.
pub open spec fn no_word_globbed(words: Seq<Seq<Segment>>, ctx: Context) -> bool {
    forall|k: int| 0 <= k < words.len() ==> !any_globbed(word_partials(#[trigger] words[k], ctx))
}

fn parse_prefixed_redirect(token: &Vec<char>) -> (r: Option<ParsedRedirect>)
    ensures
        parsed_view(r) == parse_prefixed_spec(token@),
{
    if token.len() == 0 {
        return None;
    }
    let fd: i32 = if token[0] == '1' {
        1
    } else if token[0] == '2' {
        2
    } else {
        return None;
    };
    let rest = slice_chars(token, 1, token.len());
    assert(rest@ =~= token@.skip(1));
    if has_prefix2(&rest, '>', '&') {
        let digits = slice_chars(&rest, 2, rest.len());
        assert(digits@ =~= rest@.skip(2));
        let text = string_of(&digits);
        return match parse_i32(text.as_str()) {
            Some(target) => Some(ParsedRedirect::Duplicate { fd, target }),
            None => None,
        };
    }
    if is_text1(&rest, '>') {
        return Some(ParsedRedirect::File { fd, append: false });
    }
    if is_text2(&rest, '>', '>') {
        return Some(ParsedRedirect::File { fd, append: true });
    }
    if has_prefix2(&rest, '>', '>') {
        let path = slice_chars(&rest, 2, rest.len());
        assert(path@ =~= rest@.skip(2));
        return Some(
            ParsedRedirect::FileWithAttachedPath { fd, append: true, path: string_of(&path) },
        );
    }
    if rest.len() > 0 && rest[0] == '>' {
        let path = slice_chars(&rest, 1, rest.len());
        assert(path@ =~= rest@.skip(1));
        return Some(
            ParsedRedirect::FileWithAttachedPath { fd, append: false, path: string_of(&path) },
        );
    }
    None
}

fn parse_unprefixed_redirect_word(segment: &WordSegment) -> (r: Option<ParsedRedirect>)
    ensures
        parsed_view(r) == parse_unprefixed_spec(segment@),
{
    let token = match segment {
        WordSegment::Unquoted(s) => chars_of(s.as_str()),
        _ => {
            return None;
        },
    };
    if is_text1(&token, '>') {
        Some(ParsedRedirect::File { fd: 1, append: false })
    } else if is_text2(&token, '>', '>') {
        Some(ParsedRedirect::File { fd: 1, append: true })
    } else if is_text1(&token, '<') {
        Some(ParsedRedirect::FileRead)
    } else if is_text3(&token, '<', '<', '<') {
        Some(ParsedRedirect::HereString)
    } else if is_text3(&token, '>', '&', '1') {
        Some(ParsedRedirect::Duplicate { fd: 1, target: 1 })
    } else if is_text3(&token, '>', '&', '2') {
        Some(ParsedRedirect::Duplicate { fd: 1, target: 2 })
    } else {
        parse_prefixed_redirect(&token)
    }
}

fn parse_redirect_word(word: &Word) -> (r: Option<ParsedRedirect>)
    ensures
        parsed_view(r) == parse_redirect_word_spec(word.deep_view()),
{
    if word.len() != 1 {
        return None;
    }
    assert(word.deep_view()[0] == word[0]@);
    parse_unprefixed_redirect_word(&word[0])
}

fn parse_standalone_fd_prefix(word: &Word) -> (r: Option<i32>)
    ensures
        r == standalone_fd_spec(word.deep_view()),
{
    if word.len() != 1 {
        return None;
    }
    assert(word.deep_view()[0] == word[0]@);
    let token = match &word[0] {
        WordSegment::Unquoted(s) => chars_of(s.as_str()),
        _ => {
            return None;
        },
    };
    if token.len() != 1 {
        return None;
    }
    let c = token[0];
    if c == '0' {
        Some(0)
    } else if c == '1' {
        Some(1)
    } else if c == '2' {
        Some(2)
    } else if c == '3' {
        Some(3)
    } else if c == '4' {
        Some(4)
    } else if c == '5' {
        Some(5)
    } else if c == '6' {
        Some(6)
    } else if c == '7' {
        Some(7)
    } else if c == '8' {
        Some(8)
    } else if c == '9' {
        Some(9)
    } else {
        None
    }
}

fn normalize_redirection_op(fd: i32, op: ParsedRedirect) -> (r: ParsedRedirect)
    ensures
        r@ == normalize_spec(fd, op@),
{
    match op {
        ParsedRedirect::File { append, .. } => ParsedRedirect::File { fd, append },
        ParsedRedirect::Duplicate { fd: _, target } => ParsedRedirect::Duplicate { fd, target },
        ParsedRedirect::FileRead => ParsedRedirect::FileRead,
        ParsedRedirect::HereString => ParsedRedirect::HereString,
        ParsedRedirect::FileWithAttachedPath { append, path, .. } => {
            ParsedRedirect::FileWithAttachedPath { fd, append, path }
        },
    }
}

/// The target at `idx`: the one field that the word there expands to.
fn extract_target(words: &[Word], idx: usize, here: bool, last_exit_code: i32, env: &Environment) -> (r:
    Result<String, String>)
    ensures
        r is Ok ==> idx < words.len(),
        idx < words.len() && any_globbed(
            word_partials(words.deep_view()[idx as int], context_of(env, last_exit_code)),
        ) || match target_spec(words.deep_view(), idx as int, here, context_of(env, last_exit_code)) {
            Ok(text) => r is Ok && r->Ok_0@ == text,
            Err(e) => r is Err && r->Err_0@ == words_error_message(e),
        },
{
    if idx >= words.len() {
        return Err(
            if here {
                String::from_str("jsh: syntax error: expected filename after here-string target")
            } else {
                String::from_str("jsh: syntax error: expected filename after redirection target")
            },
        );
    }
    assert(words.deep_view()[idx as int] == words[idx as int].deep_view());
    let mut expanded = expand_word(words[idx].as_slice(), last_exit_code, env);
    let ghost fields = expanded.deep_view();
    assert(fields.len() == expanded.len());
    if expanded.len() == 1 {
        assert(fields[0] == expanded[0]@);
        let one = expanded.remove(0);
        Ok(one)
    } else {
        Err(String::from_str("jsh: ambiguous redirect target"))
    }
}

/// Adds the redirection of an operator at `idx`, written in one word or,
/// if `spaced`, in two, and returns the place of the next word to read.
fn apply_parsed_redirect(
    redirections: &mut Vec<Redirection>,
    op: ParsedRedirect,
    words: &[Word],
    idx: usize,
    last_exit_code: i32,
    env: &Environment,
    spaced: bool,
) -> (r: Result<usize, String>)
    requires
        idx < words.len(),
        spaced ==> idx + 1 < words.len(),
    ensures
        r matches Ok(next) ==> idx < next <= words.len(),
        ({
            let ctx = context_of(env, last_exit_code);
            let width: int = if spaced {
                2
            } else {
                1
            };
            no_word_globbed(words.deep_view(), ctx) ==> match apply_parsed_spec(
                op@,
                words.deep_view(),
                idx as int,
                width,
                ctx,
            ) {
                Ok((redir, next)) => r == Ok::<usize, String>(next as usize)
                    && final(redirections).deep_view() == old(redirections).deep_view().push(redir),
                Err(e) => r is Err && r->Err_0@ == words_error_message(e),
            }
        }),
{
    let ghost before = redirections.deep_view();
    let increment: usize = if spaced {
        2
    } else {
        1
    };
    let (fd, kind) = match op {
        ParsedRedirect::File { fd, append } => (
            fd,
            if append {
                OperandKind::Append
            } else {
                OperandKind::Truncate
            },
        ),
        ParsedRedirect::FileRead => (0, OperandKind::Read),
        ParsedRedirect::HereString => (0, OperandKind::Here),
        ParsedRedirect::Duplicate { fd, target } => {
            let r = Redirection { fd, target: RedirectTarget::Fd(target) };
            redirections.push(r);
            assert(redirections.deep_view() =~= before.push(r@));
            return Ok(idx + increment);
        },
        ParsedRedirect::FileWithAttachedPath { fd, append, path } => {
            let r = redirection_with_operand(
                fd,
                if append {
                    OperandKind::Append
                } else {
                    OperandKind::Truncate
                },
                path,
            );
            redirections.push(r);
            assert(redirections.deep_view() =~= before.push(r@));
            return Ok(idx + increment);
        },
    };
    let here = match kind {
        OperandKind::Here => true,
        _ => false,
    };
    let target = match extract_target(words, idx + increment, here, last_exit_code, env) {
        Ok(target) => target,
        Err(msg) => {
            return Err(msg);
        },
    };
    let r = redirection_with_operand(fd, kind, target);
    redirections.push(r);
    assert(redirections.deep_view() =~= before.push(r@));
    Ok(idx + increment + 1)
}

fn apply_spaced_prefixed_redirect(
    redirections: &mut Vec<Redirection>,
    fd: i32,
    op: ParsedRedirect,
    words: &[Word],
    idx: usize,
    last_exit_code: i32,
    env: &Environment,
) -> (r: Result<usize, String>)
    requires
        idx + 1 < words.len(),
    ensures
        r matches Ok(next) ==> idx < next <= words.len(),
        ({
            let ctx = context_of(env, last_exit_code);
            no_word_globbed(words.deep_view(), ctx) ==> match apply_parsed_spec(
                normalize_spec(fd, op@),
                words.deep_view(),
                idx as int,
                2,
                ctx,
            ) {
                Ok((redir, next)) => r == Ok::<usize, String>(next as usize)
                    && final(redirections).deep_view() == old(redirections).deep_view().push(redir),
                Err(e) => r is Err && r->Err_0@ == words_error_message(e),
            }
        }),
{
    let adjusted = normalize_redirection_op(fd, op);
    apply_parsed_redirect(redirections, adjusted, words, idx, last_exit_code, env, true)
}

/// Separates redirect operators from parsed words, quote-aware:
/// operators hidden behind escapes or quotes are ordinary words.
///
/// An operator is a word of one unquoted segment; a one-digit word right
/// before an operator word gives it its descriptor (`2 > file`). The
/// target of an operator is the next word, expanded: it must give exactly
/// one field. The contract is exact where no word is matched against the
/// file system; a target that is globbed is taken as what the file system
/// gives for it.
pub fn extract_redirections_from_words(words: &[Word], last_exit_code: i32, env: &Environment) -> (r:
    Result<(Vec<Word>, Vec<Redirection>), String>)
    ensures
        r matches Ok(parted) ==> forall|a: int|
            0 <= a < parted.0.len() ==> words.deep_view().contains(#[trigger] parted.0.deep_view()[a]),
        ({
            let ctx = context_of(env, last_exit_code);
            no_word_globbed(words.deep_view(), ctx) ==> match extract_words_spec(words.deep_view(), ctx) {
                Ok((args, redirs)) => r is Ok && r->Ok_0.0.deep_view() == args
                    && r->Ok_0.1.deep_view() == redirs,
                Err(e) => r is Err && r->Err_0@ == words_error_message(e),
            }
        }),
{
    let ghost ctx = context_of(env, last_exit_code);
    let ghost ws = words.deep_view();
    let mut args: Vec<Word> = Vec::new();
    let mut redirections: Vec<Redirection> = Vec::new();
    let mut i: usize = 0;
    assert(args.deep_view() =~= Seq::empty());
    assert(redirections.deep_view() =~= Seq::empty());
    while i < words.len()
        invariant
            i <= words.len(),
            ws == words.deep_view(),
            ctx == context_of(env, last_exit_code),
            forall|a: int| 0 <= a < args.len() ==> ws.contains(#[trigger] args.deep_view()[a]),
            no_word_globbed(ws, ctx) ==> extract_words_from(
                ws,
                i as int,
                args.deep_view(),
                redirections.deep_view(),
                ctx,
            ) == extract_words_spec(ws, ctx),
        decreases words.len() - i,
    {
        let ghost args0 = args.deep_view();
        assert(ws[i as int] == words[i as int].deep_view());
        match parse_redirect_word(&words[i]) {
            Some(op) => {
                match apply_parsed_redirect(
                    &mut redirections,
                    op,
                    words,
                    i,
                    last_exit_code,
                    env,
                    false,
                ) {
                    Ok(next) => {
                        i = next;
                    },
                    Err(msg) => {
                        return Err(msg);
                    },
                }
                continue ;
            },
            None => {},
        }
        let spaced = match parse_standalone_fd_prefix(&words[i]) {
            Some(fd) => {
                if i + 1 < words.len() && words[i + 1].len() == 1 {
                    assert(ws[i + 1] == words[i + 1].deep_view());
                    assert(ws[i + 1][0] == words[i + 1][0]@);
                    match parse_unprefixed_redirect_word(&words[i + 1][0]) {
                        Some(op) => Some((fd, op)),
                        None => None,
                    }
                } else {
                    if i + 1 < words.len() {
                        assert(ws[i + 1] == words[i + 1].deep_view());
                    }
                    None
                }
            },
            None => None,
        };
        match spaced {
            Some((fd, op)) => {
                match apply_spaced_prefixed_redirect(
                    &mut redirections,
                    fd,
                    op,
                    words,
                    i,
                    last_exit_code,
                    env,
                ) {
                    Ok(next) => {
                        i = next;
                    },
                    Err(msg) => {
                        return Err(msg);
                    },
                }
            },
            None => {
                args.push(clone_word(&words[i]));
                assert(args.deep_view() =~= args0.push(ws[i as int]));
                assert forall|a: int| 0 <= a < args.len() implies ws.contains(
                    #[trigger] args.deep_view()[a],
                ) by {
                    if a < args0.len() {
                        assert(args.deep_view()[a] == args0[a]);
                    } else {
                        assert(ws[i as int] == args.deep_view()[a]);
                    }
                }
                i += 1;
            },
        }
    }
    Ok((args, redirections))
}


/// The arguments that are left are words of the list: where no word is
/// matched against the file system, no argument is.
pub(crate) proof fn lemma_args_are_words(
    words: Seq<Seq<Segment>>,
    i: int,
    args: Seq<Seq<Segment>>,
    redirs: Seq<RedirectionView>,
    ctx: Context,
)
    requires
        0 <= i,
        forall|a: int| 0 <= a < args.len() ==> words.contains(#[trigger] args[a]),
    ensures
        extract_words_from(words, i, args, redirs, ctx) matches Ok((rest, _)) ==> {
            &&& forall|a: int| 0 <= a < rest.len() ==> words.contains(#[trigger] rest[a])
            &&& no_word_globbed(words, ctx) ==> no_word_globbed(rest, ctx)
        },
    decreases words.len() - i,
{
    if i < words.len() {
        let direct = parse_redirect_word_spec(words[i]);
        let spaced = spaced_op_spec(words, i);
        if direct is Some {
            match apply_parsed_spec(direct->0, words, i, 1, ctx) {
                Ok((r, next)) => {
                    lemma_args_are_words(words, next, args, redirs.push(r), ctx);
                },
                Err(_) => {},
            }
        } else if spaced is Some {
            match apply_parsed_spec(spaced->0, words, i, 2, ctx) {
                Ok((r, next)) => {
                    lemma_args_are_words(words, next, args, redirs.push(r), ctx);
                },
                Err(_) => {},
            }
        } else {
            let grown = args.push(words[i]);
            assert forall|a: int| 0 <= a < grown.len() implies words.contains(#[trigger] grown[a]) by {
                if a < args.len() {
                    assert(grown[a] == args[a]);
                } else {
                    assert(words[i] == grown[a]);
                }
            }
            lemma_args_are_words(words, i + 1, grown, redirs, ctx);
        }
    } else {
        if no_word_globbed(words, ctx) {
            assert forall|a: int| 0 <= a < args.len() implies !any_globbed(
                word_partials(#[trigger] args[a], ctx),
            ) by {
                assert(words.contains(args[a]));
                let k = choose|k: int| 0 <= k < words.len() && words[k] == args[a];
                assert(!any_globbed(word_partials(words[k], ctx)));
            }
        }
    }
}

} // verus!
