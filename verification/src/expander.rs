//! Expander: turns parsed words into the final argument strings, applying
//! tilde, variable and glob expansion according to quote context.

use vstd::prelude::*;
use crate::env::Environment;
use crate::parser::{Segment, Word, WordSegment};
use crate::text::{
    chars_of,
    decimal,
    is_whitespace,
    push_chars,
    push_decimal,
    push_signed_decimal,
    push_str,
    signed_decimal,
    slice_chars,
    string_of,
    whitespace,
};

verus! {

// ── What expansion reads ─────────────────────────────────────────────────

/// What expansion depends on: the variables, the shell's process id and
/// the exit code of the last command.
pub struct Context {
    pub vars: Map<Seq<char>, Seq<char>>,
    pub pid: u32,
    pub code: i32,
}

/// The context that an environment and an exit code make.
pub open spec fn context_of(env: &Environment, code: i32) -> Context {
    Context { vars: env.vars(), pid: env.shell_pid(), code }
}

/// The value of a variable; empty where it is not set.
pub open spec fn var_value(vars: Map<Seq<char>, Seq<char>>, name: Seq<char>) -> Seq<char> {
    if vars.dom().contains(name) {
        vars[name]
    } else {
        Seq::empty()
    }
}

/// The home directory: `$HOME`, else `$USERPROFILE`, else `~` itself.
pub open spec fn home_of(vars: Map<Seq<char>, Seq<char>>) -> Seq<char> {
    if vars.dom().contains("HOME"@) {
        vars["HOME"@]
    } else if vars.dom().contains("USERPROFILE"@) {
        vars["USERPROFILE"@]
    } else {
        seq!['~']
    }
}

pub open spec fn is_ascii_alphabetic(c: char) -> bool {
    ('a' <= c && c <= 'z') || ('A' <= c && c <= 'Z')
}

/// Whether a variable name may start with `c`.
pub open spec fn is_name_start(c: char) -> bool {
    is_ascii_alphabetic(c) || c == '_'
}

/// Whether a variable name may go on with `c`.
pub open spec fn is_name_char(c: char) -> bool {
    is_ascii_alphabetic(c) || ('0' <= c && c <= '9') || c == '_'
}

/// Where the run of name characters that starts at `i` ends.
pub open spec fn name_end(s: Seq<char>, i: int) -> int
    decreases s.len() - i,
{
    if 0 <= i < s.len() && is_name_char(s[i]) {
        name_end(s, i + 1)
    } else {
        i
    }
}

/// The place of the first `}` at or after `i`; the length of `s` if there
/// is none.
pub open spec fn closing_brace(s: Seq<char>, i: int) -> int
    decreases s.len() - i,
{
    if i < 0 || i >= s.len() {
        s.len() as int
    } else if s[i] == '}' {
        i
    } else {
        closing_brace(s, i + 1)
    }
}

proof fn lemma_name_end_bounds(s: Seq<char>, i: int)
    requires
        0 <= i <= s.len(),
    ensures
        i <= name_end(s, i) <= s.len(),
        forall|j: int| i <= j < name_end(s, i) ==> is_name_char(s[j]),
        name_end(s, i) < s.len() ==> !is_name_char(s[name_end(s, i)]),
    decreases s.len() - i,
{
    if i < s.len() && is_name_char(s[i]) {
        lemma_name_end_bounds(s, i + 1);
    }
}

proof fn lemma_closing_brace_bounds(s: Seq<char>, i: int)
    requires
        0 <= i <= s.len(),
    ensures
        i <= closing_brace(s, i) <= s.len(),
        forall|j: int| i <= j < closing_brace(s, i) ==> s[j] != '}',
        closing_brace(s, i) < s.len() ==> s[closing_brace(s, i)] == '}',
    decreases s.len() - i,
{
    if i < s.len() && s[i] != '}' {
        lemma_closing_brace_bounds(s, i + 1);
    }
}

/// The text of `s` from `i` on with its variables expanded: `$?` is the
/// last exit code, `$$` the shell's pid, `$0` the shell's name, `$NAME`
/// and `${NAME}` the value of the variable (empty if unset). A `$` at the
/// end or before anything else stands for itself, and so do `${}` and a
/// `${` that is never closed.
pub open spec fn expand_from(s: Seq<char>, i: int, ctx: Context) -> Seq<char>
    decreases s.len() - i,
    via expand_from_terminates
{
    if i < 0 || i >= s.len() {
        Seq::empty()
    } else if s[i] != '$' {
        seq![s[i]] + expand_from(s, i + 1, ctx)
    } else if i + 1 >= s.len() {
        seq!['$']
    } else {
        let c = s[i + 1];
        if c == '?' {
            signed_decimal(ctx.code as int) + expand_from(s, i + 2, ctx)
        } else if c == '$' {
            decimal(ctx.pid as nat) + expand_from(s, i + 2, ctx)
        } else if c == '0' {
            "jsh"@ + expand_from(s, i + 2, ctx)
        } else if c == '{' {
            let close = closing_brace(s, i + 2);
            let name = s.subrange(i + 2, close);
            if close >= s.len() {
                seq!['$', '{'] + name
            } else if name.len() == 0 {
                seq!['$', '{', '}'] + expand_from(s, close + 1, ctx)
            } else {
                var_value(ctx.vars, name) + expand_from(s, close + 1, ctx)
            }
        } else if is_name_start(c) {
            let end = name_end(s, i + 2);
            var_value(ctx.vars, s.subrange(i + 1, end)) + expand_from(s, end, ctx)
        } else {
            seq!['$'] + expand_from(s, i + 1, ctx)
        }
    }
}

#[via_fn]
proof fn expand_from_terminates(s: Seq<char>, i: int, ctx: Context) {
    if 0 <= i && i + 1 < s.len() {
        lemma_closing_brace_bounds(s, i + 2);
        lemma_name_end_bounds(s, i + 2);
    }
}

/// `s` with its variables expanded.
pub open spec fn expand_variables_spec(s: Seq<char>, ctx: Context) -> Seq<char> {
    expand_from(s, 0, ctx)
}

/// Whether `s` holds, from `i` on, a `$` that starts an expansion.
pub open spec fn has_expansion_from(s: Seq<char>, i: int) -> bool
    decreases s.len() - i,
{
    if i < 0 || i >= s.len() {
        false
    } else if s[i] != '$' {
        has_expansion_from(s, i + 1)
    } else if i + 1 >= s.len() {
        false
    } else {
        let c = s[i + 1];
        if c == '?' || c == '$' || c == '0' {
            true
        } else if c == '{' {
            closing_brace(s, i + 2) < s.len()
        } else if is_name_start(c) {
            true
        } else {
            has_expansion_from(s, i + 1)
        }
    }
}

/// `token` with a leading `~` replaced by the home directory, where the
/// token is `~` alone or goes on with `/` or `\`.
pub open spec fn expand_tilde_spec(token: Seq<char>, home: Seq<char>) -> Seq<char> {
    if token.len() == 0 || token[0] != '~' {
        token
    } else if token.len() == 1 {
        home
    } else if token[1] == '/' || token[1] == '\\' {
        home + token.skip(1)
    } else {
        token
    }
}

/// The fields of `s` from `i` on, split at white space, after `fields`
/// were found and `current` was begun.
pub open spec fn split_from(s: Seq<char>, i: int, fields: Seq<Seq<char>>, current: Seq<char>) -> Seq<
    Seq<char>,
>
    decreases s.len() - i,
{
    let closed = if current.len() > 0 {
        fields.push(current)
    } else {
        fields
    };
    if i < 0 || i >= s.len() {
        closed
    } else if is_whitespace(s[i]) {
        split_from(s, i + 1, closed, Seq::empty())
    } else {
        split_from(s, i + 1, fields, current.push(s[i]))
    }
}

/// The non-empty runs of `s` between white space.
pub open spec fn split_whitespace_spec(s: Seq<char>) -> Seq<Seq<char>> {
    split_from(s, 0, Seq::empty(), Seq::empty())
}

/// A field under construction: its text, and whether it may be globbed.
pub type Partial = (Seq<char>, bool);

/// What a segment contributes: one field, or for unquoted text that holds
/// an expansion the fields that the expanded text splits into (one empty
/// field if there is none). Only unquoted text may be globbed.
pub open spec fn segment_fields(seg: Segment, ctx: Context) -> Seq<Partial> {
    match seg {
        Segment::SingleQuoted(text) => seq![(text, false)],
        Segment::DoubleQuoted(text) => seq![(expand_variables_spec(text, ctx), false)],
        Segment::Unquoted(text) => {
            let expanded = expand_variables_spec(expand_tilde_spec(text, home_of(ctx.vars)), ctx);
            let fields = if has_expansion_from(text, 0) {
                let split = split_whitespace_spec(expanded);
                if split.len() == 0 {
                    seq![Seq::<char>::empty()]
                } else {
                    split
                }
            } else {
                seq![expanded]
            };
            fields.map_values(|f: Seq<char>| (f, true))
        },
    }
}

/// One field, continued by each of `fields` in turn.
pub open spec fn continue_with(base: Partial, fields: Seq<Partial>) -> Seq<Partial> {
    fields.map_values(|f: Partial| (base.0 + f.0, base.1 || f.1))
}

/// Every field of `partials` continued by every field of `fields`, in the
/// order of `partials`, then of `fields`.
pub open spec fn combine(partials: Seq<Partial>, fields: Seq<Partial>) -> Seq<Partial>
    decreases partials.len(),
{
    if partials.len() == 0 {
        Seq::empty()
    } else {
        combine(partials.drop_last(), fields) + continue_with(partials.last(), fields)
    }
}

/// The fields that a word expands to, before globbing.
pub open spec fn word_partials(word: Seq<Segment>, ctx: Context) -> Seq<Partial>
    decreases word.len(),
{
    if word.len() == 0 {
        seq![(Seq::<char>::empty(), false)]
    } else {
        combine(word_partials(word.drop_last(), ctx), segment_fields(word.last(), ctx))
    }
}

/// Whether the text holds a glob character: `*`, `?` or `[`.
pub open spec fn contains_glob_chars_spec(s: Seq<char>) -> bool {
    s.contains('*') || s.contains('?') || s.contains('[')
}

/// Whether a field is handed to the file system for matching.
pub open spec fn is_globbed(p: Partial) -> bool {
    p.1 && contains_glob_chars_spec(p.0)
}

// ── Executable ───────────────────────────────────────────────────────────

fn ascii_alphabetic(c: char) -> (r: bool)
    ensures
        r == is_ascii_alphabetic(c),
{
    ('a' <= c && c <= 'z') || ('A' <= c && c <= 'Z')
}

fn name_start(c: char) -> (r: bool)
    ensures
        r == is_name_start(c),
{
    ascii_alphabetic(c) || c == '_'
}

fn name_char(c: char) -> (r: bool)
    ensures
        r == is_name_char(c),
{
    ascii_alphabetic(c) || ('0' <= c && c <= '9') || c == '_'
}

fn find_name_end(s: &Vec<char>, start: usize) -> (r: usize)
    requires
        start <= s.len(),
    ensures
        r == name_end(s@, start as int),
        start <= r <= s.len(),
{
    let mut i = start;
    while i < s.len() && name_char(s[i])
        invariant
            start <= i <= s.len(),
            name_end(s@, i as int) == name_end(s@, start as int),
        decreases s.len() - i,
    {
        i += 1;
    }
    i
}

fn find_closing_brace(s: &Vec<char>, start: usize) -> (r: usize)
    requires
        start <= s.len(),
    ensures
        r == closing_brace(s@, start as int),
        start <= r <= s.len(),
{
    let mut i = start;
    while i < s.len() && s[i] != '}'
        invariant
            start <= i <= s.len(),
            closing_brace(s@, i as int) == closing_brace(s@, start as int),
        decreases s.len() - i,
    {
        i += 1;
    }
    i
}

fn push_var(out: &mut Vec<char>, name: &Vec<char>, env: &Environment)
    ensures
        final(out)@ == old(out)@ + var_value(env.vars(), name@),
{
    let key = string_of(name);
    match env.get(key.as_str()) {
        Some(value) => {
            push_str(out, value.as_str());
        },
        None => {
            assert(out@ =~= old(out)@ + Seq::<char>::empty());
        },
    }
}

/// Expands the variables of a text, given as characters.
pub fn expand_variable_chars(s: &Vec<char>, last_exit_code: i32, env: &Environment) -> (r: Vec<char>)
    ensures
        r@ == expand_variables_spec(s@, context_of(env, last_exit_code)),
{
    let ghost ctx = context_of(env, last_exit_code);
    let ghost total = expand_from(s@, 0, ctx);
    let mut out: Vec<char> = Vec::new();
    let mut i: usize = 0;
    assert(out@ + total =~= total);
    while i < s.len()
        invariant
            i <= s.len(),
            ctx == context_of(env, last_exit_code),
            out@ + expand_from(s@, i as int, ctx) == total,
        decreases s.len() - i,
    {
        let ghost before = out@;
        let ghost rest = expand_from(s@, i as int, ctx);
        let ch = s[i];
        if ch != '$' {
            out.push(ch);
            assert(out@ + expand_from(s@, i + 1, ctx) =~= before + rest);
            i += 1;
        } else if i + 1 >= s.len() {
            out.push('$');
            assert(out@ + expand_from(s@, i + 1, ctx) =~= before + rest);
            i += 1;
        } else {
            let c = s[i + 1];
            if c == '?' {
                push_signed_decimal(&mut out, last_exit_code as i64);
                assert(out@ + expand_from(s@, i + 2, ctx) =~= before + rest);
                i += 2;
            } else if c == '$' {
                push_decimal(&mut out, env.pid() as u64);
                assert(out@ + expand_from(s@, i + 2, ctx) =~= before + rest);
                i += 2;
            } else if c == '0' {
                push_str(&mut out, "jsh");
                assert(out@ + expand_from(s@, i + 2, ctx) =~= before + rest);
                i += 2;
            } else if c == '{' {
                let close = find_closing_brace(s, i + 2);
                let name = slice_chars(s, i + 2, close);
                if close >= s.len() {
                    out.push('$');
                    out.push('{');
                    push_chars(&mut out, &name);
                    assert(out@ =~= before + (seq!['$', '{'] + name@));
                    assert(expand_from(s@, s@.len() as int, ctx) =~= Seq::<char>::empty());
                    assert(out@ + expand_from(s@, s@.len() as int, ctx) =~= before + rest);
                    i = s.len();
                } else if name.len() == 0 {
                    out.push('$');
                    out.push('{');
                    out.push('}');
                    assert(out@ + expand_from(s@, close + 1, ctx) =~= before + rest);
                    i = close + 1;
                } else {
                    push_var(&mut out, &name, env);
                    assert(out@ + expand_from(s@, close + 1, ctx) =~= before + rest);
                    i = close + 1;
                }
            } else if name_start(c) {
                let end = find_name_end(s, i + 2);
                let name = slice_chars(s, i + 1, end);
                push_var(&mut out, &name, env);
                assert(out@ + expand_from(s@, end as int, ctx) =~= before + rest);
                i = end;
            } else {
                out.push('$');
                assert(out@ + expand_from(s@, i + 1, ctx) =~= before + rest);
                i += 1;
            }
        }
    }
    assert(out@ + expand_from(s@, i as int, ctx) =~= out@);
    out
}

/// Expands the variables of `input`: `$?`, `$$`, `$0`, `$NAME` and
/// `${NAME}`.
pub fn expand_variables(input: &str, last_exit_code: i32, env: &Environment) -> (r: String)
    ensures
        r@ == expand_variables_spec(input@, context_of(env, last_exit_code)),
{
    let s = chars_of(input);
    let out = expand_variable_chars(&s, last_exit_code, env);
    string_of(&out)
}

/// Whether unquoted text holds a `$` that starts an expansion, so that
/// what it expands to is split into fields.
pub fn has_unquoted_expansion(text: &str) -> (r: bool)
    ensures
        r == has_expansion_from(text@, 0),
{
    let s = chars_of(text);
    let mut i: usize = 0;
    while i < s.len()
        invariant
            i <= s.len(),
            s@ == text@,
            has_expansion_from(s@, i as int) == has_expansion_from(s@, 0),
        decreases s.len() - i,
    {
        if s[i] != '$' {
            i += 1;
        } else if i + 1 >= s.len() {
            return false;
        } else {
            let c = s[i + 1];
            if c == '?' || c == '$' || c == '0' {
                return true;
            } else if c == '{' {
                let close = find_closing_brace(&s, i + 2);
                return close < s.len();
            } else if name_start(c) {
                return true;
            } else {
                i += 1;
            }
        }
    }
    false
}

/// The home directory: `$HOME`, else `$USERPROFILE`, else `~`.
pub fn get_home_dir(env: &Environment) -> (r: String)
    ensures
        r@ == home_of(env.vars()),
{
    match env.get("HOME") {
        Some(home) => home.clone(),
        None => match env.get("USERPROFILE") {
            Some(home) => home.clone(),
            None => {
                let mut t: Vec<char> = Vec::new();
                t.push('~');
                assert(t@ =~= seq!['~']);
                string_of(&t)
            },
        },
    }
}

/// Replaces a leading `~` by the home directory, in `~` alone and before
/// `/` or `\`; `~name` stays as it is.
pub fn expand_tilde(token: &str, env: &Environment) -> (r: String)
    ensures
        r@ == expand_tilde_spec(token@, home_of(env.vars())),
{
    let s = chars_of(token);
    if s.len() == 0 || s[0] != '~' {
        return string_of(&s);
    }
    let home = get_home_dir(env);
    if s.len() == 1 {
        return home;
    }
    if s[1] == '/' || s[1] == '\\' {
        let mut out = chars_of(home.as_str());
        let tail = slice_chars(&s, 1, s.len());
        assert(tail@ =~= s@.skip(1));
        push_chars(&mut out, &tail);
        return string_of(&out);
    }
    string_of(&s)
}

/// The texts of a list of character vectors.
pub open spec fn texts(fields: Seq<Vec<char>>) -> Seq<Seq<char>> {
    fields.map_values(|v: Vec<char>| v@)
}

/// Splits a text at white space into its non-empty fields.
pub fn split_whitespace(s: &Vec<char>) -> (r: Vec<Vec<char>>)
    ensures
        texts(r@) == split_whitespace_spec(s@),
{
    let mut fields: Vec<Vec<char>> = Vec::new();
    let mut current: Vec<char> = Vec::new();
    let mut i: usize = 0;
    assert(texts(fields@) =~= Seq::<Seq<char>>::empty());
    while i < s.len()
        invariant
            i <= s.len(),
            split_from(s@, i as int, texts(fields@), current@) == split_whitespace_spec(s@),
        decreases s.len() - i,
    {
        let ghost fields0 = texts(fields@);
        if whitespace(s[i]) {
            if current.len() > 0 {
                let mut done: Vec<char> = Vec::new();
                std::mem::swap(&mut done, &mut current);
                fields.push(done);
                assert(texts(fields@) =~= fields0.push(done@));
            }
            assert(current@ =~= Seq::<char>::empty());
        } else {
            current.push(s[i]);
        }
        i += 1;
    }
    if current.len() > 0 {
        let ghost fields0 = texts(fields@);
        fields.push(current);
        assert(texts(fields@) =~= fields0.push(current@));
    }
    fields
}

/// Whether the text holds a glob character.
pub fn contains_glob_chars(s: &str) -> (r: bool)
    ensures
        r == contains_glob_chars_spec(s@),
{
    let v = chars_of(s);
    let mut i: usize = 0;
    while i < v.len()
        invariant
            i <= v.len(),
            v@ == s@,
            forall|j: int| 0 <= j < i ==> v[j] != '*' && v[j] != '?' && v[j] != '[',
        decreases v.len() - i,
    {
        if v[i] == '*' || v[i] == '?' || v[i] == '[' {
            assert(v@[i as int] == v[i as int]);
            return true;
        }
        i += 1;
    }
    false
}


// ── Fields ───────────────────────────────────────────────────────────────

/// A field under construction.
pub struct Field {
    pub text: Vec<char>,
    /// Whether unquoted text went into it, so that it may be globbed.
    pub can_glob: bool,
}

impl View for Field {
    type V = Partial;

    open spec fn view(&self) -> Partial {
        (self.text@, self.can_glob)
    }
}

impl DeepView for Field {
    type V = Partial;

    open spec fn deep_view(&self) -> Partial {
        self@
    }
}

fn one_field(text: Vec<char>, can_glob: bool) -> (r: Vec<Field>)
    ensures
        r.deep_view() == seq![(text@, can_glob)],
{
    let mut fields: Vec<Field> = Vec::new();
    fields.push(Field { text, can_glob });
    assert(fields.deep_view() =~= seq![(text@, can_glob)]);
    fields
}

/// The fields that a segment contributes.
fn fields_of_segment(segment: &WordSegment, last_exit_code: i32, env: &Environment) -> (r: Vec<Field>)
    ensures
        r.deep_view() == segment_fields(segment@, context_of(env, last_exit_code)),
{
    match segment {
        WordSegment::SingleQuoted(text) => one_field(chars_of(text.as_str()), false),
        WordSegment::DoubleQuoted(text) => {
            let chars = chars_of(text.as_str());
            one_field(expand_variable_chars(&chars, last_exit_code, env), false)
        },
        WordSegment::Unquoted(text) => {
            let ghost ctx = context_of(env, last_exit_code);
            let ghost mark = |f: Seq<char>| (f, true);
            let tilde = expand_tilde(text.as_str(), env);
            let chars = chars_of(tilde.as_str());
            let expanded = expand_variable_chars(&chars, last_exit_code, env);
            if has_unquoted_expansion(text.as_str()) {
                let split = split_whitespace(&expanded);
                if split.len() == 0 {
                    let r = one_field(Vec::new(), true);
                    assert(r.deep_view() =~= seq![Seq::<char>::empty()].map_values(mark));
                    r
                } else {
                    let mut fields: Vec<Field> = Vec::new();
                    let mut i: usize = 0;
                    while i < split.len()
                        invariant
                            i <= split.len(),
                            fields.len() == i,
                            forall|j: int|
                                0 <= j < i ==> (#[trigger] fields[j])@ == (split[j]@, true),
                        decreases split.len() - i,
                    {
                        fields.push(Field { text: split[i].clone(), can_glob: true });
                        i += 1;
                    }
                    assert(fields.deep_view() =~= texts(split@).map_values(mark));
                    fields
                }
            } else {
                let r = one_field(expanded, true);
                assert(r.deep_view() =~= seq![expanded@].map_values(mark));
                r
            }
        },
    }
}

/// Every field of `partials` continued by every field of `fields`.
fn combine_fields(partials: &Vec<Field>, fields: &Vec<Field>) -> (r: Vec<Field>)
    ensures
        r.deep_view() == combine(partials.deep_view(), fields.deep_view()),
{
    let ghost ps = partials.deep_view();
    let ghost fs = fields.deep_view();
    let mut next: Vec<Field> = Vec::new();
    let mut i: usize = 0;
    assert(next.deep_view() =~= combine(ps.take(0), fs));
    while i < partials.len()
        invariant
            i <= partials.len(),
            ps == partials.deep_view(),
            fs == fields.deep_view(),
            next.deep_view() == combine(ps.take(i as int), fs),
        decreases partials.len() - i,
    {
        let ghost done = next.deep_view();
        let ghost base = ps[i as int];
        assert(base == partials[i as int]@);
        let mut j: usize = 0;
        assert(next.deep_view() =~= done + continue_with(base, fs.take(0)));
        while j < fields.len()
            invariant
                j <= fields.len(),
                i < partials.len(),
                fs == fields.deep_view(),
                base == partials[i as int]@,
                next.deep_view() == done + continue_with(base, fs.take(j as int)),
            decreases fields.len() - j,
        {
            let ghost before = next.deep_view();
            let mut text = partials[i].text.clone();
            push_chars(&mut text, &fields[j].text);
            let field = Field { text, can_glob: partials[i].can_glob || fields[j].can_glob };
            assert(fs[j as int] == fields[j as int]@);
            next.push(field);
            assert(next.deep_view() =~= before.push(field@));
            assert(fs.take(j + 1) =~= fs.take(j as int).push(fs[j as int]));
            assert(continue_with(base, fs.take(j + 1)) =~= continue_with(base, fs.take(j as int)).push(
                field@,
            ));
            j += 1;
        }
        assert(fs.take(j as int) =~= fs);
        assert(ps.take(i + 1).drop_last() =~= ps.take(i as int));
        assert(ps.take(i + 1).last() == base);
        i += 1;
    }
    assert(ps.take(i as int) =~= ps);
    next
}

/// The fields that a word expands to, before globbing: its segments
/// expanded according to their quoting and joined, with an unquoted
/// segment that holds an expansion splitting the word at white space.
pub fn expand_word_fields(segments: &[WordSegment], last_exit_code: i32, env: &Environment) -> (r: Vec<
    Field,
>)
    ensures
        r.deep_view() == word_partials(segments.deep_view(), context_of(env, last_exit_code)),
{
    let ghost ctx = context_of(env, last_exit_code);
    let ghost word = segments.deep_view();
    let mut partials = one_field(Vec::new(), false);
    let mut i: usize = 0;
    assert(partials.deep_view() =~= word_partials(word.take(0), ctx));
    while i < segments.len()
        invariant
            i <= segments.len(),
            word == segments.deep_view(),
            ctx == context_of(env, last_exit_code),
            partials.deep_view() == word_partials(word.take(i as int), ctx),
        decreases segments.len() - i,
    {
        let fields = fields_of_segment(&segments[i], last_exit_code, env);
        assert(word[i as int] == segments[i as int]@);
        partials = combine_fields(&partials, &fields);
        assert(word.take(i + 1).drop_last() =~= word.take(i as int));
        assert(word.take(i + 1).last() == word[i as int]);
        i += 1;
    }
    assert(word.take(i as int) =~= word);
    partials
}

// ── Globbing ─────────────────────────────────────────────────────────────

/// Lexicographic order of texts by the code points of their characters.
pub open spec fn text_le(a: Seq<char>, b: Seq<char>) -> bool
    decreases a.len(),
{
    if a.len() == 0 {
        true
    } else if b.len() == 0 {
        false
    } else if a[0] != b[0] {
        (a[0] as u32) < (b[0] as u32)
    } else {
        text_le(a.skip(1), b.skip(1))
    }
}

/// Whether a list of texts ascends.
pub open spec fn texts_sorted(s: Seq<Seq<char>>) -> bool {
    forall|i: int, j: int| 0 <= i < j < s.len() ==> text_le(#[trigger] s[i], #[trigger] s[j])
}

/// Trusted: wraps `glob::glob` and walks what it yields. `None` stands
/// for a pattern that the crate rejects; else there is one entry for each
/// path that the iterator yields, `None` for one that could not be read.
/// What matches depends on the file system, so nothing is said of the
/// entries.
#[verifier::external_body]
fn glob_entries(pattern: &str) -> (r: Option<Vec<Option<String>>>) {
    match glob::glob(pattern) {
        Ok(paths) => Some(
            paths.map(
                |entry| match entry {
                    Ok(path) => Some(path.to_string_lossy().into_owned()),
                    Err(_) => None,
                },
            ).collect(),
        ),
        Err(_) => None,
    }
}

/// Trusted: wraps the sort of a vector of strings, which leaves as many
/// strings, the same ones, in ascending order, strings being ordered lexicographically by
/// their bytes, that is by the code points of their characters.
#[verifier::external_body]
fn sort_strings(v: &mut Vec<String>)
    ensures
        final(v).len() == old(v).len(),
        final(v).deep_view().to_multiset() == old(v).deep_view().to_multiset(),
        texts_sorted(final(v).deep_view()),
{
    v.sort();
}

/// The paths among the entries of a glob walk.
pub open spec fn readable(entries: Seq<Option<String>>) -> Seq<Seq<char>>
    decreases entries.len(),
{
    if entries.len() == 0 {
        Seq::empty()
    } else {
        match entries.last() {
            Some(path) => readable(entries.drop_last()).push(path@),
            None => readable(entries.drop_last()),
        }
    }
}

/// The paths that match, where there are any: what a glob walk yields
/// for a pattern that is valid and matches something readable.
pub open spec fn glob_matches(outcome: Option<Vec<Option<String>>>) -> Option<Seq<Seq<char>>> {
    match outcome {
        Some(entries) if readable(entries@).len() > 0 => Some(readable(entries@)),
        _ => None,
    }
}

/// The fields that a pattern stands for, given what the glob walk found:
/// the paths that match in ascending order, or the pattern itself if
/// nothing matches or the pattern is not valid.
pub fn glob_fields(pattern: &str, outcome: Option<Vec<Option<String>>>) -> (r: Vec<String>)
    ensures
        r.len() >= 1,
        match glob_matches(outcome) {
            Some(paths) => r.deep_view().to_multiset() == paths.to_multiset() && texts_sorted(
                r.deep_view(),
            ),
            None => r.deep_view() == seq![pattern@],
        },
{
    let mut matches: Vec<String> = Vec::new();
    match outcome {
        Some(entries) => {
            let mut i: usize = 0;
            assert(matches.deep_view() =~= readable(entries@.take(0)));
            while i < entries.len()
                invariant
                    i <= entries.len(),
                    matches.deep_view() == readable(entries@.take(i as int)),
                decreases entries.len() - i,
            {
                let ghost before = matches.deep_view();
                assert(entries@.take(i + 1).drop_last() =~= entries@.take(i as int));
                assert(entries@.take(i + 1).last() == entries[i as int]);
                match &entries[i] {
                    Some(path) => {
                        matches.push(path.clone());
                        assert(matches.deep_view() =~= before.push(path@));
                    },
                    None => {},
                }
                i += 1;
            }
            assert(entries@.take(i as int) =~= entries@);
        },
        None => {
            assert(matches.deep_view() =~= Seq::<Seq<char>>::empty());
        },
    }
    if matches.len() == 0 {
        let mut only: Vec<String> = Vec::new();
        only.push(string_of(&chars_of(pattern)));
        assert(only.deep_view() =~= seq![pattern@]);
        only
    } else {
        sort_strings(&mut matches);
        matches
    }
}

/// What a text may stand for once it was matched against the file
/// system: itself, or paths in ascending order, at least one.
pub open spec fn may_match(text: Seq<char>, fields: Seq<Seq<char>>) -> bool {
    fields.len() >= 1 && (fields == seq![text] || texts_sorted(fields))
}

/// Expands a glob pattern against the file system. A text without glob
/// characters stands for itself; so does a pattern that matches nothing.
/// Whatever the file system holds, the result is the pattern itself or
/// paths in ascending order.
pub fn expand_globs(pattern: &str) -> (r: Vec<String>)
    ensures
        may_match(pattern@, r.deep_view()),
        !contains_glob_chars_spec(pattern@) ==> r.deep_view() == seq![pattern@],
{
    if !contains_glob_chars(pattern) {
        let mut only: Vec<String> = Vec::new();
        only.push(string_of(&chars_of(pattern)));
        assert(only.deep_view() =~= seq![pattern@]);
        return only;
    }
    let outcome = glob_entries(pattern);
    glob_fields(pattern, outcome)
}

/// The texts of the fields, where none of them is globbed.
pub open spec fn partial_texts(partials: Seq<Partial>) -> Seq<Seq<char>> {
    partials.map_values(|p: Partial| p.0)
}

/// Whether some field is handed to the file system for matching.
pub open spec fn any_globbed(partials: Seq<Partial>) -> bool {
    exists|i: int| 0 <= i < partials.len() && is_globbed(#[trigger] partials[i])
}

/// What a field may stand for: itself, and where it is globbed what
/// matching it against the file system may give.
pub open spec fn stands_for(p: Partial, fields: Seq<Seq<char>>) -> bool {
    if is_globbed(p) {
        may_match(p.0, fields)
    } else {
        fields == seq![p.0]
    }
}

/// Whether `parts` holds, for each field of `partials` in order, what
/// the field may stand for.
pub open spec fn expansion_of(partials: Seq<Partial>, parts: Seq<Seq<Seq<char>>>) -> bool {
    parts.len() == partials.len() && forall|k: int|
        0 <= k < partials.len() ==> stands_for(#[trigger] partials[k], parts[k])
}

/// Whether `fields` is what the fields of `partials` may stand for, one
/// after the other.
pub open spec fn may_expand_to(partials: Seq<Partial>, fields: Seq<Seq<char>>) -> bool {
    exists|parts: Seq<Seq<Seq<char>>>| #[trigger] expansion_of(partials, parts) && fields == parts.flatten()
}

/// Expands a single word, which may have mixed quoting, into one or more
/// strings. A field that took in unquoted text and holds a glob character
/// is matched against the file system and stands for what matches; every
/// other field stands for itself.
pub fn expand_word(segments: &[WordSegment], last_exit_code: i32, env: &Environment) -> (r: Vec<String>)
    ensures
        ({
            let partials = word_partials(segments.deep_view(), context_of(env, last_exit_code));
            &&& r.len() >= partials.len() >= 1
            &&& may_expand_to(partials, r.deep_view())
            &&& !any_globbed(partials) ==> r.deep_view() == partial_texts(partials)
        }),
{
    let fields = expand_word_fields(segments, last_exit_code, env);
    let ghost partials = fields.deep_view();
    proof {
        lemma_partials_nonempty(segments.deep_view(), context_of(env, last_exit_code));
    }
    let mut out: Vec<String> = Vec::new();
    let mut i: usize = 0;
    let ghost mut parts: Seq<Seq<Seq<char>>> = Seq::empty();
    assert(out.deep_view() =~= partial_texts(partials.take(0)));
    assert(out.deep_view() =~= parts.flatten());
    while i < fields.len()
        invariant
            i <= fields.len(),
            partials == fields.deep_view(),
            out.len() >= i,
            expansion_of(partials.take(i as int), parts),
            out.deep_view() == parts.flatten(),
            !any_globbed(partials.take(i as int)) ==> out.deep_view() == partial_texts(
                partials.take(i as int),
            ),
        decreases fields.len() - i,
    {
        let ghost before = out.deep_view();
        let ghost seen = partials.take(i as int);
        let ghost parts0 = parts;
        let text = string_of(&fields[i].text);
        assert(partials[i as int] == fields[i as int]@);
        assert(partials.take(i + 1) =~= seen.push(partials[i as int]));
        proof {
            if !any_globbed(partials.take(i + 1)) {
                assert forall|k: int| 0 <= k < seen.len() implies !is_globbed(#[trigger] seen[k]) by {
                    assert(partials.take(i + 1)[k] == seen[k]);
                }
                assert(!is_globbed(partials.take(i + 1)[i as int]));
            }
        }
        if fields[i].can_glob && contains_glob_chars(text.as_str()) {
            let mut found = expand_globs(text.as_str());
            let ghost matched = found.deep_view();
            out.append(&mut found);
            assert(is_globbed(partials.take(i + 1)[i as int]));
            proof {
                assert(out.deep_view() =~= before + matched);
                parts = parts0.push(matched);
            }
        } else {
            out.push(text);
            assert(out.deep_view() =~= before.push(text@));
            assert(partial_texts(seen.push(partials[i as int])) =~= partial_texts(seen).push(text@));
            proof {
                assert(out.deep_view() =~= before + seq![text@]);
                parts = parts0.push(seq![text@]);
            }
        }
        proof {
            parts0.lemma_flatten_push(parts.last());
            let grown = partials.take(i + 1);
            assert forall|k: int| 0 <= k < grown.len() implies stands_for(
                #[trigger] grown[k],
                parts[k],
            ) by {
                if k < i {
                    assert(grown[k] == seen[k]);
                    assert(parts[k] == parts0[k]);
                }
            }
        }
        i += 1;
    }
    assert(partials.take(i as int) =~= partials);
    out
}

/// A word expands to at least one field.
proof fn lemma_partials_nonempty(word: Seq<Segment>, ctx: Context)
    ensures
        word_partials(word, ctx).len() >= 1,
    decreases word.len(),
{
    if word.len() > 0 {
        lemma_partials_nonempty(word.drop_last(), ctx);
        let before = word_partials(word.drop_last(), ctx);
        let fields = segment_fields(word.last(), ctx);
        assert(fields.len() >= 1);
        lemma_combine_len(before, fields);
    }
}

proof fn lemma_combine_len(partials: Seq<Partial>, fields: Seq<Partial>)
    ensures
        combine(partials, fields).len() == partials.len() * fields.len(),
    decreases partials.len(),
{
    if partials.len() > 0 {
        lemma_combine_len(partials.drop_last(), fields);
        assert((partials.len() - 1) * fields.len() + fields.len() == partials.len() * fields.len())
            by (nonlinear_arith);
    } else {
        assert(0 * fields.len() == 0) by (nonlinear_arith);
    }
}

/// Whether `fields` is what the words may expand to, one after the other.
pub open spec fn words_may_expand_to(words: Seq<Seq<Segment>>, ctx: Context, fields: Seq<Seq<char>>) -> bool {
    exists|per_word: Seq<Seq<Seq<char>>>|
        {
            &&& per_word.len() == words.len()
            &&& forall|k: int|
                0 <= k < words.len() ==> may_expand_to(
                    word_partials(#[trigger] words[k], ctx),
                    per_word[k],
                )
            &&& fields == #[trigger] per_word.flatten()
        }
}

/// Expands a list of parsed words into the final argument strings, word
/// by word, in order.
pub fn expand_words(words: &[Word], last_exit_code: i32, env: &Environment) -> (r: Vec<String>)
    ensures
        r.len() >= words.len(),
        words_may_expand_to(words.deep_view(), context_of(env, last_exit_code), r.deep_view()),
        (forall|k: int|
            0 <= k < words.len() ==> !any_globbed(
                word_partials(#[trigger] words.deep_view()[k], context_of(env, last_exit_code)),
            )) ==> r.deep_view() == expanded_texts(
            words.deep_view(),
            context_of(env, last_exit_code),
        ),
{
    let ghost ctx = context_of(env, last_exit_code);
    let ghost ws = words.deep_view();
    let mut result: Vec<String> = Vec::new();
    let mut i: usize = 0;
    let ghost mut per_word: Seq<Seq<Seq<char>>> = Seq::empty();
    assert(result.deep_view() =~= expanded_texts(ws.take(0), ctx));
    assert(result.deep_view() =~= per_word.flatten());
    while i < words.len()
        invariant
            i <= words.len(),
            ws == words.deep_view(),
            ctx == context_of(env, last_exit_code),
            result.len() >= i,
            per_word.len() == i,
            forall|k: int| 0 <= k < i ==> may_expand_to(word_partials(#[trigger] ws[k], ctx), per_word[k]),
            result.deep_view() == per_word.flatten(),
            (forall|k: int| 0 <= k < i ==> !any_globbed(word_partials(#[trigger] ws[k], ctx)))
                ==> result.deep_view() == expanded_texts(ws.take(i as int), ctx),
        decreases words.len() - i,
    {
        let ghost before = result.deep_view();
        let mut fields = expand_word(words[i].as_slice(), last_exit_code, env);
        assert(ws[i as int] == words[i as int].deep_view());
        let ghost added = fields.deep_view();
        result.append(&mut fields);
        assert(result.deep_view() =~= before + added);
        proof {
            per_word.lemma_flatten_push(added);
            per_word = per_word.push(added);
        }
        assert(ws.take(i + 1).drop_last() =~= ws.take(i as int));
        assert(ws.take(i + 1).last() == ws[i as int]);
        i += 1;
    }
    assert(ws.take(i as int) =~= ws);
    result
}

/// The arguments that a list of words expands to where nothing is
/// globbed: the fields of each word, in order.
pub open spec fn expanded_texts(words: Seq<Seq<Segment>>, ctx: Context) -> Seq<Seq<char>>
    decreases words.len(),
{
    if words.len() == 0 {
        Seq::empty()
    } else {
        expanded_texts(words.drop_last(), ctx) + partial_texts(word_partials(words.last(), ctx))
    }
}


} // verus!
