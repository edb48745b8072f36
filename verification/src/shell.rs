//! Chain driver: what the shell makes of one input line. The line is
//! tokenized, parted from a trailing `&`, split into chain entries and
//! checked as a whole before anything runs; then the entries are run in
//! order, each gated by its connector and the last exit code.

use vstd::prelude::*;
use vstd::string::StringExecFns;
use crate::ast::{ChainEntryView, Connector};
use crate::env::Environment;
use crate::executor::{ExecutionAction, PipelineCommand, PipelineCommandView};
use crate::expander::{context_of, expand_words, expanded_texts, Context};
use crate::parser::{
    is_background,
    is_background_word,
    join_pipes,
    lex_error_message,
    pipe_error,
    pipe_error_message,
    split_pipeline,
    stages_well_formed,
    tokenize,
    tokenize_spec,
    Command,
    CommandView,
    Segment,
    Word,
};
use crate::redirect::{
    extract_redirections_from_words,
    extract_words_spec,
    lemma_args_are_words,
    no_word_globbed,
    words_error_message,
};
use crate::script_parser::{chain_error_message, parse_chain, parse_chain_spec};
use crate::text::{chars_of, slice_chars, string_of, trim, trim_chars};

verus! {

/// Exit code of a line that is rejected for its syntax.
pub const SYNTAX_ERROR_CODE: i32 = 2;

/// Whether an entry with this connector runs after a command that
/// returned `last_exit_code`: always after `;`, after `&&` only on
/// success, after `||` only on failure.
pub open spec fn should_run_spec(connector: Connector, last_exit_code: i32) -> bool {
    match connector {
        Connector::Sequence => true,
        Connector::And => last_exit_code == 0,
        Connector::Or => last_exit_code != 0,
    }
}

/// Decides whether a chain entry runs.
pub fn should_run(connector: Connector, last_exit_code: i32) -> (r: bool)
    ensures
        r == should_run_spec(connector, last_exit_code),
{
    match connector {
        Connector::Sequence => true,
        Connector::And => last_exit_code == 0,
        Connector::Or => last_exit_code != 0,
    }
}

/// Whether the words end in a bare `&`.
pub open spec fn ends_in_background(words: Seq<Seq<Segment>>) -> bool {
    words.len() > 0 && is_background(words.last())
}

/// The words without a trailing `&`.
pub open spec fn without_background(words: Seq<Seq<Segment>>) -> Seq<Seq<Segment>> {
    if ends_in_background(words) {
        words.drop_last()
    } else {
        words
    }
}

/// Detects a trailing `&` and strips it: returns the words without it,
/// and whether it was there.
pub fn strip_background(words: Vec<Word>) -> (r: (Vec<Word>, bool))
    ensures
        r.1 == ends_in_background(words.deep_view()),
        r.0.deep_view() == without_background(words.deep_view()),
{
    let mut words = words;
    let ghost all = words.deep_view();
    let n = words.len();
    if n > 0 {
        assert(all.last() == words[n - 1].deep_view());
        if is_background_word(&words[n - 1]) {
            words.pop();
            assert(words.deep_view() =~= all.drop_last());
            return (words, true);
        }
    }
    (words, false)
}

/// Number of characters at the end of `s` that are `&` or a space.
pub open spec fn background_tail(s: Seq<char>) -> int
    decreases s.len(),
{
    if s.len() > 0 && (s.last() == '&' || s.last() == ' ') {
        1 + background_tail(s.drop_last())
    } else {
        0
    }
}

/// The text of a line as the job table shows it: without the `&` and
/// spaces at its end.
pub open spec fn command_text_spec(line: Seq<char>) -> Seq<char> {
    line.take(line.len() - background_tail(line))
}

/// The text of a command line for the job table: the line without the
/// `&` and spaces at its end.
pub fn command_text(line: &str) -> (r: String)
    ensures
        r@ == command_text_spec(line@),
{
    let s = chars_of(line);
    let mut end = s.len();
    assert(s@.take(end as int) =~= s@);
    while end > 0 && (s[end - 1] == '&' || s[end - 1] == ' ')
        invariant
            end <= s.len(),
            background_tail(s@) == (s.len() - end) + background_tail(s@.take(end as int)),
        decreases end,
    {
        proof {
            let head = s@.take(end as int);
            assert(head.last() == s[end - 1]);
            assert(head.drop_last() =~= s@.take(end - 1));
        }
        end -= 1;
    }
    proof {
        let head = s@.take(end as int);
        if end > 0 {
            assert(head.last() == s[end - 1]);
        }
    }
    string_of(&slice_chars(&s, 0, end))
}

/// One entry of a chain, checked and split into its pipeline stages.
#[derive(Debug)]
pub struct ChainStage {
    /// The words of each stage.
    pub pipeline: Vec<Vec<Word>>,
    /// How the previous exit code gates this entry.
    pub connector: Connector,
}

/// The mathematical value of a [`ChainStage`].
pub struct ChainStageView {
    pub pipeline: Seq<Seq<Seq<Segment>>>,
    pub connector: Connector,
}

impl View for ChainStage {
    type V = ChainStageView;

    open spec fn view(&self) -> ChainStageView {
        ChainStageView { pipeline: self.pipeline.deep_view(), connector: self.connector }
    }
}

impl DeepView for ChainStage {
    type V = ChainStageView;

    open spec fn deep_view(&self) -> ChainStageView {
        self@
    }
}

/// An input line, parsed and checked.
#[derive(Debug)]
pub struct ParsedLine {
    pub entries: Vec<ChainStage>,
    /// Whether the line ends in `&`.
    pub background: bool,
    /// The line as the job table shows it.
    pub command_text: String,
}

/// What is wrong with the syntax of a line: the message of the first
/// error, where tokenizing comes before the chain, and the chain before
/// the pipelines of its entries, in order. `None` for a line without
/// fault.
pub open spec fn line_error(line: Seq<char>) -> Option<Seq<char>> {
    match tokenize_spec(trim(line)) {
        Err(e) => Some(lex_error_message(e)),
        Ok(words) => match parse_chain_spec(without_background(words)) {
            Err(e) => Some(chain_error_message(e)),
            Ok(chain) => first_pipe_error(chain, 0),
        },
    }
}

/// The message of the first entry from `i` on whose pipeline is not well
/// formed.
pub open spec fn first_pipe_error(chain: Seq<ChainEntryView>, i: int) -> Option<Seq<char>>
    decreases chain.len() - i,
{
    if i < 0 || i >= chain.len() {
        None
    } else {
        match pipe_error(chain[i].words) {
            Some(e) => Some(pipe_error_message(e)),
            None => first_pipe_error(chain, i + 1),
        }
    }
}

/// The chain that a line without fault spells.
pub open spec fn line_chain(line: Seq<char>) -> Seq<ChainEntryView> {
    parse_chain_spec(without_background(tokenize_spec(trim(line))->Ok_0))->Ok_0
}

/// Parses an input line and checks it as a whole, before anything runs:
/// a syntax error anywhere, also in an entry that would be skipped,
/// rejects the line. A line without words gives `None`.
///
/// Each entry of the result holds the stages of one entry of the chain:
/// written out with `|` between them, they are the words of that entry.
pub fn parse_line(line: &str) -> (r: Result<Option<ParsedLine>, String>)
    ensures
        match line_error(line@) {
            Some(message) => r is Err && r->Err_0@ == message,
            None => r is Ok && ({
                let chain = line_chain(line@);
                match r->Ok_0 {
                    None => chain.len() == 0,
                    Some(parsed) => {
                        &&& chain.len() > 0
                        &&& parsed.background == ends_in_background(
                            tokenize_spec(trim(line@))->Ok_0,
                        )
                        &&& parsed.command_text@ == command_text_spec(trim(line@))
                        &&& parsed.entries.len() == chain.len()
                        &&& forall|k: int|
                            0 <= k < chain.len() ==> {
                                &&& (#[trigger] parsed.entries[k]).connector == chain[k].connector
                                &&& join_pipes(parsed.entries[k].pipeline.deep_view())
                                    == chain[k].words
                                &&& stages_well_formed(parsed.entries[k].pipeline.deep_view())
                            }
                    },
                }
            }),
        },
{
    let chars = chars_of(line);
    let trimmed = string_of(&trim_chars(&chars));
    let words = match tokenize(trimmed.as_str()) {
        Ok(words) => words,
        Err(message) => {
            return Err(message);
        },
    };
    let (words, background) = strip_background(words);
    let chain = match parse_chain(words) {
        Ok(chain) => chain,
        Err(message) => {
            return Err(message);
        },
    };
    let ghost entries = chain.deep_view();
    let mut stages: Vec<ChainStage> = Vec::new();
    let mut i: usize = 0;
    while i < chain.len()
        invariant
            i <= chain.len(),
            entries == chain.deep_view(),
            tokenize_spec(trim(line@)) is Ok,
            parse_chain_spec(without_background(tokenize_spec(trim(line@))->Ok_0)) == Ok::<
                Seq<ChainEntryView>,
                crate::script_parser::ChainError,
            >(entries),
            stages.len() == i,
            first_pipe_error(entries, i as int) == first_pipe_error(entries, 0),
            forall|k: int|
                0 <= k < i ==> {
                    &&& (#[trigger] stages[k]).connector == entries[k].connector
                    &&& join_pipes(stages[k].pipeline.deep_view()) == entries[k].words
                    &&& stages_well_formed(stages[k].pipeline.deep_view())
                },
        decreases chain.len() - i,
    {
        assert(entries[i as int] == chain[i as int]@);
        match split_pipeline(chain[i].words.as_slice()) {
            Ok(pipeline) => {
                stages.push(ChainStage { pipeline, connector: chain[i].connector });
            },
            Err(message) => {
                assert(first_pipe_error(entries, i as int) == Some(message@));
                return Err(message);
            },
        }
        i += 1;
    }
    assert(first_pipe_error(entries, i as int) is None);
    if stages.len() == 0 {
        return Ok(None);
    }
    Ok(Some(ParsedLine { entries: stages, background, command_text: command_text(trimmed.as_str()) }))
}

/// Whether a line that ends in `&` is run as a whole by a shell of its
/// own in the background: a chain of more than one entry, whose `&&` and
/// `||` must see the exit codes of the entries before them.
pub fn runs_in_background_shell(line: &ParsedLine) -> (r: bool)
    ensures
        r == (line.background && line.entries.len() > 1),
{
    line.background && line.entries.len() > 1
}

/// The command that the words of a stage spell, where no word is
/// matched against the file system: the words are parted from the
/// redirections and expanded; the first field is the program, the others
/// its arguments. Words that expand to nothing are an empty command.
pub open spec fn stage_command(stage: Seq<Seq<Segment>>, ctx: Context) -> Result<
    PipelineCommandView,
    Seq<char>,
> {
    match extract_words_spec(stage, ctx) {
        Err(e) => Err(words_error_message(e)),
        Ok((args, redirs)) => {
            let texts = expanded_texts(args, ctx);
            if texts.len() == 0 {
                Err("jsh: syntax error: empty command"@)
            } else {
                Ok(
                    PipelineCommandView {
                        command: CommandView { program: texts[0], args: texts.skip(1) },
                        redirections: redirs,
                    },
                )
            }
        },
    }
}

/// The commands of the first `k` stages, or the message of the first
/// stage among them that spells no command.
pub open spec fn commands_prefix(stages: Seq<Seq<Seq<Segment>>>, ctx: Context, k: int) -> Result<
    Seq<PipelineCommandView>,
    Seq<char>,
>
    decreases k,
{
    if k <= 0 {
        Ok(Seq::empty())
    } else {
        match commands_prefix(stages, ctx, k - 1) {
            Err(message) => Err(message),
            Ok(commands) => match stage_command(stages[k - 1], ctx) {
                Ok(command) => Ok(commands.push(command)),
                Err(message) => Err(message),
            },
        }
    }
}

/// The commands of a pipeline, or the message of its first stage that
/// spells no command.
pub open spec fn commands_spec(stages: Seq<Seq<Seq<Segment>>>, ctx: Context) -> Result<
    Seq<PipelineCommandView>,
    Seq<char>,
> {
    commands_prefix(stages, ctx, stages.len() as int)
}

/// Whether no word of any stage is matched against the file system.
pub open spec fn no_stage_globbed(stages: Seq<Seq<Seq<Segment>>>, ctx: Context) -> bool {
    forall|k: int| 0 <= k < stages.len() ==> no_word_globbed(#[trigger] stages[k], ctx)
}

proof fn lemma_commands_error_persists(
    stages: Seq<Seq<Seq<Segment>>>,
    ctx: Context,
    k: int,
    n: int,
)
    requires
        k <= n,
        commands_prefix(stages, ctx, k) is Err,
    ensures
        commands_prefix(stages, ctx, n) == commands_prefix(stages, ctx, k),
    decreases n - k,
{
    if k < n {
        lemma_commands_error_persists(stages, ctx, k, n - 1);
    }
}

/// Builds the commands of one chain entry from the words of its stages:
/// parts the redirections from the words of each stage and expands the
/// rest into the program and its arguments. The first stage that spells
/// no command fails the entry.
///
/// The contract is exact where no word is matched against the file
/// system; a word that is globbed stands for what the file system gives.
pub fn build_commands(pipeline: &Vec<Vec<Word>>, last_exit_code: i32, env: &Environment) -> (r: Result<
    Vec<PipelineCommand>,
    String,
>)
    ensures
        r matches Ok(commands) ==> commands.len() == pipeline.len(),
        no_stage_globbed(pipeline.deep_view(), context_of(env, last_exit_code)) ==> match commands_spec(
            pipeline.deep_view(),
            context_of(env, last_exit_code),
        ) {
            Ok(commands) => r is Ok && r->Ok_0.deep_view() == commands,
            Err(message) => r is Err && r->Err_0@ == message,
        },
{
    let ghost ctx = context_of(env, last_exit_code);
    let ghost stages = pipeline.deep_view();
    let ghost clean = no_stage_globbed(stages, ctx);
    let mut commands: Vec<PipelineCommand> = Vec::new();
    let mut i: usize = 0;
    assert(commands.deep_view() =~= Seq::<PipelineCommandView>::empty());
    while i < pipeline.len()
        invariant
            i <= pipeline.len(),
            stages == pipeline.deep_view(),
            ctx == context_of(env, last_exit_code),
            clean == no_stage_globbed(stages, ctx),
            commands.len() == i,
            clean ==> commands_prefix(stages, ctx, i as int) == Ok::<
                Seq<PipelineCommandView>,
                Seq<char>,
            >(commands.deep_view()),
        decreases pipeline.len() - i,
    {
        let ghost built = commands.deep_view();
        assert(stages[i as int] == pipeline[i as int].deep_view());
        proof {
            if clean {
                assert(no_word_globbed(stages[i as int], ctx));
            }
        }
        let (words, redirections) = match extract_redirections_from_words(
            pipeline[i].as_slice(),
            last_exit_code,
            env,
        ) {
            Ok(pair) => pair,
            Err(message) => {
                proof {
                    if clean {
                        lemma_commands_error_persists(stages, ctx, i + 1, stages.len() as int);
                    }
                }
                return Err(message);
            },
        };
        proof {
            if clean {
                lemma_args_are_words(stages[i as int], 0, Seq::empty(), Seq::empty(), ctx);
            }
        }
        let mut args = expand_words(words.as_slice(), last_exit_code, env);
        if args.len() == 0 {
            proof {
                if clean {
                    lemma_commands_error_persists(stages, ctx, i + 1, stages.len() as int);
                }
            }
            return Err(String::from_str("jsh: syntax error: empty command"));
        }
        let ghost texts = args.deep_view();
        assert(texts[0] == args[0]@);
        let program = args.remove(0);
        assert(args.deep_view() =~= texts.skip(1));
        let command = PipelineCommand { command: Command { program, args }, redirections };
        commands.push(command);
        assert(commands.deep_view() =~= built.push(command@));
        i += 1;
    }
    Ok(commands)
}

/// The chain of a line that is being run.
#[derive(Debug)]
pub struct ChainRun {
    entries: Vec<ChainStage>,
    next: usize,
    background: bool,
    code: i32,
}

/// The mathematical value of a [`ChainRun`].
pub struct ChainRunView {
    pub entries: Seq<ChainStageView>,
    /// The place of the next entry to look at.
    pub next: int,
    pub background: bool,
    /// The exit code of the last command.
    pub code: i32,
}

/// What the chain driver asks of its caller.
#[derive(Debug)]
pub enum ChainStep {
    /// Run these commands as one pipeline, then report what it returned.
    Run { commands: Vec<PipelineCommand>, background: bool },
    /// The entry cannot be run; the message goes to stderr, and the rest
    /// of the line is dropped.
    Failed { message: String },
    /// Nothing is left to run.
    Finished,
}

/// The place of the first entry from `next` on that runs after the exit
/// code `code`; the number of entries if none does.
pub open spec fn next_to_run(entries: Seq<ChainStageView>, next: int, code: i32) -> int
    decreases entries.len() - next,
{
    if next < 0 || next >= entries.len() {
        entries.len() as int
    } else if should_run_spec(entries[next].connector, code) {
        next
    } else {
        next_to_run(entries, next + 1, code)
    }
}

impl View for ChainRun {
    type V = ChainRunView;

    closed spec fn view(&self) -> ChainRunView {
        ChainRunView {
            entries: self.entries.deep_view(),
            next: self.next as int,
            background: self.background,
            code: self.code,
        }
    }
}

impl ChainRun {
    /// Starts the run of a parsed line after a command that returned
    /// `last_exit_code`.
    pub fn new(line: ParsedLine, last_exit_code: i32) -> (r: ChainRun)
        ensures
            r@ == (ChainRunView {
                entries: line.entries.deep_view(),
                next: 0,
                background: line.background,
                code: last_exit_code,
            }),
    {
        ChainRun { entries: line.entries, next: 0, background: line.background, code: last_exit_code }
    }

    /// The exit code of the last command.
    pub fn last_exit_code(&self) -> (r: i32)
        ensures
            r == self@.code,
    {
        self.code
    }

    /// Finds the next entry that the last exit code lets run, and builds
    /// its commands. Entries that `&&` or `||` gate out are skipped. An
    /// entry that cannot be built fails the line with exit code 2. Only
    /// the first entry of a line can run in the background.
    pub fn next(&mut self, env: &Environment) -> (r: ChainStep)
        ensures
            final(self)@.entries == old(self)@.entries,
            final(self)@.background == old(self)@.background,
            ({
                let k = next_to_run(old(self)@.entries, old(self)@.next, old(self)@.code);
                let n = old(self)@.entries.len();
                match r {
                    ChainStep::Finished => k >= n && final(self)@.next == n && final(self)@.code
                        == old(self)@.code,
                    ChainStep::Run { commands, background } => {
                        &&& old(self)@.next <= k < n
                        &&& final(self)@.next == k + 1
                        &&& final(self)@.code == old(self)@.code
                        &&& background == (old(self)@.background && k == 0)
                        &&& commands.len() == old(self)@.entries[k].pipeline.len()
                        &&& no_stage_globbed(
                            old(self)@.entries[k].pipeline,
                            context_of(env, old(self)@.code),
                        ) ==> commands_spec(
                            old(self)@.entries[k].pipeline,
                            context_of(env, old(self)@.code),
                        ) == Ok::<Seq<PipelineCommandView>, Seq<char>>(commands.deep_view())
                    },
                    ChainStep::Failed { message } => {
                        &&& old(self)@.next <= k < n
                        &&& final(self)@.next == n
                        &&& final(self)@.code == SYNTAX_ERROR_CODE
                        &&& no_stage_globbed(
                            old(self)@.entries[k].pipeline,
                            context_of(env, old(self)@.code),
                        ) ==> commands_spec(
                            old(self)@.entries[k].pipeline,
                            context_of(env, old(self)@.code),
                        ) == Err::<Seq<PipelineCommandView>, Seq<char>>(message@)
                    },
                }
            }),
    {
        let ghost entries = self@.entries;
        let ghost start = self@.next;
        let ghost code = self.code;
        assert(self.entries.deep_view().len() == self.entries.len());
        while self.next < self.entries.len() && !should_run(
            self.entries[self.next].connector,
            self.code,
        )
            invariant
                self@.entries == entries,
                self.code == code,
                self.background == old(self).background,
                start <= self.next,
                self.entries.deep_view().len() == self.entries.len(),
                next_to_run(entries, self.next as int, code) == next_to_run(entries, start, code),
                self.next < self.entries.len() ==> entries[self.next as int]
                    == self.entries[self.next as int]@,
            decreases self.entries.len() - self.next,
        {
            self.next = self.next + 1;
            if self.next < self.entries.len() {
                assert(self.entries.deep_view()[self.next as int] == self.entries[self.next as int]@);
            }
        }
        if self.next >= self.entries.len() {
            self.next = self.entries.len();
            return ChainStep::Finished;
        }
        let k = self.next;
        assert(entries[k as int] == self.entries[k as int]@);
        match build_commands(&self.entries[k].pipeline, self.code, env) {
            Ok(commands) => {
                self.next = k + 1;
                ChainStep::Run { commands, background: self.background && k == 0 }
            },
            Err(message) => {
                self.next = self.entries.len();
                self.code = SYNTAX_ERROR_CODE;
                ChainStep::Failed { message }
            },
        }
    }

    /// Takes what the commands of the last step returned. Returns the
    /// exit code with which the shell is to leave, if a builtin asked for
    /// that; the rest of the line is then dropped.
    pub fn completed(&mut self, action: ExecutionAction) -> (r: Option<i32>)
        ensures
            final(self)@.entries == old(self)@.entries,
            final(self)@.background == old(self)@.background,
            match action {
                ExecutionAction::Continue(code) => {
                    &&& r is None
                    &&& final(self)@.code == code
                    &&& final(self)@.next == old(self)@.next
                },
                ExecutionAction::Exit(code) => {
                    &&& r == Some(code)
                    &&& final(self)@.code == code
                    &&& final(self)@.next == old(self)@.entries.len()
                },
            },
    {
        match action {
            ExecutionAction::Continue(code) => {
                self.code = code;
                None
            },
            ExecutionAction::Exit(code) => {
                self.code = code;
                assert(self.entries.deep_view().len() == self.entries.len());
                self.next = self.entries.len();
                Some(code)
            },
        }
    }
}

/// `false && a || b` runs `b`: after a failure an `&&` entry is skipped
/// and the next `||` entry runs; after a success it is the other way
/// round; an entry after `;` always runs.
pub proof fn lemma_short_circuit(entries: Seq<ChainStageView>, next: int, code: i32)
    requires
        0 <= next <= entries.len(),
    ensures
        next <= next_to_run(entries, next, code) <= entries.len(),
        forall|k: int|
            next <= k < next_to_run(entries, next, code) ==> !should_run_spec(
                (#[trigger] entries[k]).connector,
                code,
            ),
        next_to_run(entries, next, code) < entries.len() ==> should_run_spec(
            entries[next_to_run(entries, next, code)].connector,
            code,
        ),
    decreases entries.len() - next,
{
    if next < entries.len() && !should_run_spec(entries[next].connector, code) {
        lemma_short_circuit(entries, next + 1, code);
    }
}

} // verus!
