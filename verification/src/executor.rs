//! Pipeline executor: the decisions of running a command or a pipeline.
//!
//! Spawning processes, creating pipes, waiting and handing over the
//! terminal are the caller's work. The executor is the automaton that
//! tells the caller what to do next ([`PipelineAction`]) and takes what
//! came of it ([`PipelineEvent`]): it walks the stages in order, resolves
//! each stage's redirections on top of its defaults, enforces the
//! pipeline's rules, keeps the process group and the children that are
//! still to be accounted for, and ends by saying what the command line
//! returned.

use vstd::prelude::*;
use vstd::string::StringExecFns;
use crate::builtins::{is_builtin, is_builtin_spec, is_stateful_builtin, is_stateful_spec, BuiltinAction};
use crate::jobs::{JobStatus, JobTable, JobTableView};
use crate::parser::{Command, CommandView};
use crate::redirect::{Redirection, RedirectionView};
use crate::resolve::{
    resolve_redirections,
    resolve_spec,
    unsupported_message,
    FileOpen,
    InputHandle,
    OutputHandle,
    RedirectionDefaults,
};
use crate::status::{exit_code_from_wait_status, wait_status_code, wait_status_stopped};
use crate::text::{decimal, push_decimal, push_str, str_eq, string_of};

verus! {

/// One stage of a pipeline: a command and its redirections.
#[derive(Debug)]
pub struct PipelineCommand {
    pub command: Command,
    pub redirections: Vec<Redirection>,
}

/// The mathematical value of a [`PipelineCommand`].
pub struct PipelineCommandView {
    pub command: CommandView,
    pub redirections: Seq<RedirectionView>,
}

impl View for PipelineCommand {
    type V = PipelineCommandView;

    open spec fn view(&self) -> PipelineCommandView {
        PipelineCommandView {
            command: self.command@,
            redirections: self.redirections.deep_view(),
        }
    }
}

impl DeepView for PipelineCommand {
    type V = PipelineCommandView;

    open spec fn deep_view(&self) -> PipelineCommandView {
        self@
    }
}

/// What a command line returned: go on with an exit code, or leave the
/// shell with one. `Exit` is reserved for builtins that ask for it.
#[derive(Debug, Clone, Copy, PartialEq, Eq, Structural)]
pub enum ExecutionAction {
    Continue(i32),
    Exit(i32),
}

/// How a stage runs.
#[derive(Debug, Clone, Copy, PartialEq, Eq, Structural)]
pub enum StageKind {
    /// As a child process.
    External,
    /// A builtin that is not the last stage: on a worker thread, with an
    /// empty job table of its own.
    BuiltinWorker,
    /// A builtin that is the last stage: on the shell's thread, with the
    /// real job table.
    BuiltinLast,
}

/// Where the executor stands.
#[derive(Debug, Clone, Copy, PartialEq, Eq, Structural)]
pub enum Phase {
    /// The stage `next` has been asked for; its outcome is awaited.
    Launching,
    /// All stages are launched; the worker threads are being joined.
    Joining,
    /// The children of the foreground group are being waited for.
    Draining,
    /// The run is over.
    Finished,
}

/// What the caller is asked to do to launch a stage.
#[derive(Debug)]
pub struct StageLaunch {
    /// Which stage.
    pub index: usize,
    pub kind: StageKind,
    /// Whether a fresh pipe is to be created, whose writing end is this
    /// stage's `Pipe` output and whose reading end is the next stage's
    /// `Pipe` input.
    pub needs_pipe: bool,
    pub stdin: InputHandle,
    pub stdout: OutputHandle,
    pub stderr: OutputHandle,
    /// The files to open first, in this order.
    pub opens: Vec<FileOpen>,
    /// For a child process: the process group to join, or `None` for the
    /// child that becomes the leader of a new group.
    pub join_group: Option<u32>,
}

/// The mathematical value of a [`StageLaunch`].
pub struct StageLaunchView {
    pub index: usize,
    pub kind: StageKind,
    pub needs_pipe: bool,
    pub stdin: InputHandle,
    pub stdout: OutputHandle,
    pub stderr: OutputHandle,
    pub opens: Seq<FileOpen>,
    pub join_group: Option<u32>,
}

impl View for StageLaunch {
    type V = StageLaunchView;

    open spec fn view(&self) -> StageLaunchView {
        StageLaunchView {
            index: self.index,
            kind: self.kind,
            needs_pipe: self.needs_pipe,
            stdin: self.stdin,
            stdout: self.stdout,
            stderr: self.stderr,
            opens: self.opens@,
            join_group: self.join_group,
        }
    }
}

/// How a run ended.
#[derive(Debug)]
pub struct Completion {
    /// What the command line returned.
    pub action: ExecutionAction,
    /// A line to print on the shell's stdout.
    pub stdout: Option<String>,
    /// A line to print on the shell's stderr.
    pub stderr: Option<String>,
    /// A job that entered the table, as `(job id, pid)`: the handle of
    /// that child goes with the job; the other children of the run belong
    /// to its process group.
    pub transfer: Option<(usize, u32)>,
    /// Children that are to be waited for before the caller goes on.
    pub wait: Vec<u32>,
}

/// The mathematical value of a [`Completion`].
pub struct CompletionView {
    pub action: ExecutionAction,
    pub stdout: Option<Seq<char>>,
    pub stderr: Option<Seq<char>>,
    pub transfer: Option<(usize, u32)>,
    pub wait: Seq<u32>,
}

impl View for Completion {
    type V = CompletionView;

    open spec fn view(&self) -> CompletionView {
        CompletionView {
            action: self.action,
            stdout: match self.stdout {
                Some(s) => Some(s@),
                None => None,
            },
            stderr: match self.stderr {
                Some(s) => Some(s@),
                None => None,
            },
            transfer: self.transfer,
            wait: self.wait@,
        }
    }
}

/// What the executor asks of its caller.
#[derive(Debug)]
pub enum PipelineAction {
    /// Launch a stage, then report `Spawned`, `SpawnFailed`,
    /// `SetupFailed`, `WorkerStarted` or `BuiltinFinished`.
    Launch(StageLaunch),
    /// Join the worker threads, then report `WorkersJoined`.
    JoinWorkers,
    /// Hand the terminal to the group `pgid`, if that was not done yet in
    /// this run, and wait once, stop-aware: for the child `only`, or for
    /// any child of the group. Then report `Waited` or `WaitFailed`. The
    /// terminal goes back to the shell when the run finishes.
    Wait { pgid: u32, only: Option<u32> },
    /// The run is over.
    Finished(Completion),
    /// The event does not fit the state; nothing has changed.
    Rejected,
}

/// The mathematical value of a [`PipelineAction`].
pub enum ActionView {
    Launch(StageLaunchView),
    JoinWorkers,
    Wait { pgid: u32, only: Option<u32> },
    Finished(CompletionView),
    Rejected,
}

impl View for PipelineAction {
    type V = ActionView;

    open spec fn view(&self) -> ActionView {
        match *self {
            PipelineAction::Launch(l) => ActionView::Launch(l@),
            PipelineAction::JoinWorkers => ActionView::JoinWorkers,
            PipelineAction::Wait { pgid, only } => ActionView::Wait { pgid, only },
            PipelineAction::Finished(c) => ActionView::Finished(c@),
            PipelineAction::Rejected => ActionView::Rejected,
        }
    }
}

/// What came of the action that the executor asked for.
#[derive(Debug)]
pub enum PipelineEvent {
    /// The child of the stage runs, with this pid; `pgid` is the process
    /// group that the system reports for it, where the caller asked.
    Spawned { pid: u32, pgid: Option<u32> },
    /// The program of the stage could not be started.
    SpawnFailed { not_found: bool, detail: String },
    /// A pipe could not be created, or a file could not be opened or
    /// duplicated; `message` says so.
    SetupFailed { message: String },
    /// The builtin of the stage runs on its worker thread.
    WorkerStarted,
    /// The builtin of the last stage has run.
    BuiltinFinished { action: BuiltinAction },
    /// All worker threads have ended.
    WorkersJoined,
    /// The wait returned for `pid` with this raw status.
    Waited { pid: u32, raw_status: i32 },
    /// The wait failed, other than by an interrupt.
    WaitFailed { detail: String },
}

/// The mathematical value of a [`PipelineEvent`].
pub enum EventView {
    Spawned { pid: u32, pgid: Option<u32> },
    SpawnFailed { not_found: bool, detail: Seq<char> },
    SetupFailed { message: Seq<char> },
    WorkerStarted,
    BuiltinFinished { action: BuiltinAction },
    WorkersJoined,
    Waited { pid: u32, raw_status: i32 },
    WaitFailed { detail: Seq<char> },
}

impl View for PipelineEvent {
    type V = EventView;

    open spec fn view(&self) -> EventView {
        match *self {
            PipelineEvent::Spawned { pid, pgid } => EventView::Spawned { pid, pgid },
            PipelineEvent::SpawnFailed { not_found, detail } => EventView::SpawnFailed {
                not_found,
                detail: detail@,
            },
            PipelineEvent::SetupFailed { message } => EventView::SetupFailed { message: message@ },
            PipelineEvent::WorkerStarted => EventView::WorkerStarted,
            PipelineEvent::BuiltinFinished { action } => EventView::BuiltinFinished { action },
            PipelineEvent::WorkersJoined => EventView::WorkersJoined,
            PipelineEvent::Waited { pid, raw_status } => EventView::Waited { pid, raw_status },
            PipelineEvent::WaitFailed { detail } => EventView::WaitFailed { detail: detail@ },
        }
    }
}

// ── The automaton, as mathematics ────────────────────────────────────────

/// The state of a run.
pub struct RunView {
    pub stages: Seq<PipelineCommandView>,
    pub background: bool,
    /// The command line, as the job table shows it.
    pub text: Seq<char>,
    pub phase: Phase,
    /// The stage that is being launched.
    pub next: int,
    /// The process group of the pipeline: the pid of its first child.
    pub pgid: Option<u32>,
    /// The children that were spawned and are not accounted for yet:
    /// neither found to have exited, nor handed to the job table, nor
    /// handed back to be waited for.
    pub held: Seq<u32>,
    /// The child of the last stage that runs as a process.
    pub last_external: Option<u32>,
    /// The exit code of that child, once it has ended.
    pub last_code: Option<i32>,
    /// The exit code of the builtin that ran as the last stage.
    pub last_status: i32,
    /// Whether a builtin was started on a worker thread.
    pub workers: bool,
}

/// A state, the job table and the action that go with it.
pub struct StepView {
    pub run: RunView,
    pub jobs: JobTableView,
    pub action: ActionView,
}

pub open spec fn exit_in_pipeline_message() -> Seq<char> {
    "jsh: 'exit' is not supported in pipelines"@
}

pub open spec fn stdout_redirect_message(program: Seq<char>) -> Seq<char> {
    "jsh: cannot redirect stdout of non-terminal pipeline command '"@ + program + "'"@
}

pub open spec fn stateful_builtin_message(program: Seq<char>) -> Seq<char> {
    "jsh: builtin '"@ + program + "' is not supported in non-terminal pipeline positions"@
}

pub open spec fn spawn_error_message(program: Seq<char>, not_found: bool, detail: Seq<char>) -> Seq<
    char,
> {
    if not_found {
        "jsh: command not found: "@ + program
    } else {
        "jsh: "@ + program + ": "@ + detail
    }
}

/// Exit code for a program that could not be started: 127 where it was
/// not found, 126 where it could not be executed.
pub open spec fn spawn_error_code(not_found: bool) -> i32 {
    if not_found {
        127
    } else {
        126
    }
}

pub open spec fn wait_error_message(run: RunView, detail: Seq<char>) -> Seq<char> {
    if run.stages.len() == 1 {
        "jsh: "@ + run.stages[0].command.program + ": waitpid failed: "@ + detail
    } else {
        "jsh: failed waiting for pipeline jobs: "@ + detail
    }
}

/// The line that announces a background job: `[id] pid`.
pub open spec fn background_line(id: usize, pid: u32) -> Seq<char> {
    seq!['['] + decimal(id as nat) + "] "@ + decimal(pid as nat)
}

/// The line that announces a stopped job: `[id]  Stopped  command`.
pub open spec fn stopped_line(id: usize, text: Seq<char>) -> Seq<char> {
    seq!['['] + decimal(id as nat) + "]  Stopped  "@ + text
}

pub open spec fn as_execution(action: BuiltinAction) -> ExecutionAction {
    match action {
        BuiltinAction::Continue(code) => ExecutionAction::Continue(code),
        BuiltinAction::Exit(code) => ExecutionAction::Exit(code),
    }
}

pub open spec fn builtin_code(action: BuiltinAction) -> i32 {
    match action {
        BuiltinAction::Continue(code) => code,
        BuiltinAction::Exit(code) => code,
    }
}

/// Whether some stage runs `exit`.
pub open spec fn has_exit_stage(stages: Seq<PipelineCommandView>) -> bool {
    exists|k: int| 0 <= k < stages.len() && #[trigger] stages[k].command.program == "exit"@
}

/// `s` without the first occurrence of `pid`.
pub open spec fn without(s: Seq<u32>, pid: u32) -> Seq<u32>
    decreases s.len(),
{
    if s.len() == 0 {
        s
    } else if s.first() == pid {
        s.drop_first()
    } else {
        seq![s.first()] + without(s.drop_first(), pid)
    }
}

impl CompletionView {
    /// A completion that only returns.
    pub open spec fn plain(action: ExecutionAction) -> CompletionView {
        CompletionView { action, stdout: None, stderr: None, transfer: None, wait: Seq::empty() }
    }
}

impl RunView {
    pub open spec fn wf(self) -> bool {
        &&& self.stages.len() <= usize::MAX
        &&& !(self.phase is Finished) ==> self.stages.len() > 0
        &&& self.phase is Launching ==> 0 <= self.next < self.stages.len() && self.held.len()
            <= self.next
        &&& self.phase is Draining ==> self.pgid is Some && self.last_external is Some
        &&& self.held.len() > 0 ==> self.pgid is Some && self.last_external is Some
        &&& self.last_external is Some ==> self.pgid is Some
    }

    /// Whether the stage `k` is the last one.
    pub open spec fn is_last(self, k: int) -> bool {
        k + 1 == self.stages.len()
    }

    /// How the stage `k` runs.
    pub open spec fn kind(self, k: int) -> StageKind {
        if !is_builtin_spec(self.stages[k].command.program) {
            StageKind::External
        } else if self.is_last(k) {
            StageKind::BuiltinLast
        } else {
            StageKind::BuiltinWorker
        }
    }

    /// The handles of the stage `k` where no redirection says otherwise:
    /// stdin from the previous stage's pipe, stdout into the pipe to the
    /// next stage, the shell's own handles at the two ends and for stderr.
    pub open spec fn defaults(self, k: int) -> RedirectionDefaults {
        RedirectionDefaults {
            stdin: if k > 0 {
                InputHandle::Pipe
            } else {
                InputHandle::Inherit
            },
            stdout: if self.is_last(k) {
                OutputHandle::Inherit
            } else {
                OutputHandle::Pipe
            },
            stderr: OutputHandle::Inherit,
        }
    }

    /// The process group of the foreground job: that of the pipeline,
    /// which exists as soon as a child does.
    pub open spec fn foreground_group(self) -> u32 {
        match self.pgid {
            Some(pgid) => pgid,
            None => 0,
        }
    }

    /// The child whose handle stands for the job in the table: that of
    /// the last stage that runs as a process.
    pub open spec fn job_child(self) -> u32 {
        match self.last_external {
            Some(pid) => pid,
            None => 0,
        }
    }

    /// The run ends with the completion `c`.
    pub open spec fn finish(self, jobs: JobTableView, c: CompletionView) -> StepView {
        StepView {
            run: RunView { phase: Phase::Finished, ..self },
            jobs,
            action: ActionView::Finished(c),
        }
    }

    /// The run ends on an error: the message goes to stderr, and the
    /// children that were spawned so far are handed back to be waited for.
    pub open spec fn abort(self, jobs: JobTableView, message: Seq<char>, code: i32) -> StepView {
        RunView { held: Seq::empty(), ..self }.finish(
            jobs,
            CompletionView {
                action: ExecutionAction::Continue(code),
                stdout: None,
                stderr: Some(message),
                transfer: None,
                wait: self.held,
            },
        )
    }

    /// The run ends by handing its children to the job table as one job
    /// with the given status, under the group of the pipeline, and
    /// announcing it.
    pub open spec fn hand_over(self, jobs: JobTableView, status: JobStatus) -> StepView {
        let id = jobs.next_id as usize;
        let pid = self.job_child();
        RunView { held: Seq::empty(), ..self }.finish(
            jobs.add(pid, self.text, self.foreground_group(), status),
            CompletionView {
                action: ExecutionAction::Continue(0),
                stdout: Some(
                    if status is Stopped {
                        stopped_line(id, self.text)
                    } else {
                        background_line(id, pid)
                    },
                ),
                stderr: None,
                transfer: Some((id, pid)),
                wait: Seq::empty(),
            },
        )
    }

    /// Asks for the stage `k`: resolves its redirections on top of its
    /// defaults and checks the rules of pipelines. A stage that is not the
    /// last may not redirect its stdout, which would detach it from the
    /// pipe, and may not be a builtin that changes the shell's state.
    pub open spec fn launch(self, jobs: JobTableView, k: int) -> StepView {
        let stage = self.stages[k];
        let program = stage.command.program;
        match resolve_spec(stage.redirections, self.defaults(k)) {
            Err(e) => self.abort(jobs, unsupported_message(stage.redirections[e]), 1),
            Ok(res) => {
                if !self.is_last(k) && res.stdout_redirected {
                    self.abort(jobs, stdout_redirect_message(program), 1)
                } else if !self.is_last(k) && is_stateful_spec(program) {
                    self.abort(jobs, stateful_builtin_message(program), 1)
                } else {
                    StepView {
                        run: RunView { phase: Phase::Launching, next: k, ..self },
                        jobs,
                        action: ActionView::Launch(
                            StageLaunchView {
                                index: k as usize,
                                kind: self.kind(k),
                                needs_pipe: !self.is_last(k),
                                stdin: res.stdin,
                                stdout: res.stdout,
                                stderr: res.stderr,
                                opens: res.opens,
                                join_group: self.pgid,
                            },
                        ),
                    }
                }
            },
        }
    }

    /// Starts the wait for the foreground children, or ends the run if
    /// there are none: the exit code is then that of the last stage's
    /// builtin.
    pub open spec fn drain(self, jobs: JobTableView) -> StepView {
        if self.held.len() == 0 {
            self.finish(jobs, CompletionView::plain(ExecutionAction::Continue(self.last_status)))
        } else {
            StepView {
                run: RunView { phase: Phase::Draining, ..self },
                jobs,
                action: ActionView::Wait {
                    pgid: self.foreground_group(),
                    only: if self.stages.len() == 1 {
                        Some(self.held[0])
                    } else {
                        None
                    },
                },
            }
        }
    }

    /// All stages are launched. In the background nothing is waited for:
    /// the last child enters the job table under the pipeline's group. In
    /// the foreground the worker threads are joined first, so that their
    /// pipe ends are closed before any child is waited for.
    pub open spec fn settle(self, jobs: JobTableView) -> StepView {
        if self.background {
            if self.last_external is Some {
                self.hand_over(jobs, JobStatus::Running)
            } else {
                self.finish(jobs, CompletionView::plain(ExecutionAction::Continue(0)))
            }
        } else if self.workers {
            StepView {
                run: RunView { phase: Phase::Joining, ..self },
                jobs,
                action: ActionView::JoinWorkers,
            }
        } else {
            self.drain(jobs)
        }
    }

    /// The stage `next` is launched: on to the next one, or to the end.
    pub open spec fn advance(self, jobs: JobTableView) -> StepView {
        if self.next + 1 < self.stages.len() {
            self.launch(jobs, self.next + 1)
        } else {
            self.settle(jobs)
        }
    }

    /// Nothing changes: the event does not fit the state.
    pub open spec fn reject(self, jobs: JobTableView) -> StepView {
        StepView { run: self, jobs, action: ActionView::Rejected }
    }

    /// A child ended with the code `code`: it is accounted for. When the
    /// last one has ended, the run returns the exit code of the last
    /// stage.
    pub open spec fn child_ended(self, jobs: JobTableView, pid: u32, code: i32) -> StepView {
        let run = RunView {
            held: without(self.held, pid),
            last_code: if self.last_external == Some(pid) {
                Some(code)
            } else {
                self.last_code
            },
            ..self
        };
        if run.held.len() == 0 {
            run.finish(
                jobs,
                CompletionView::plain(
                    ExecutionAction::Continue(
                        if run.kind(run.stages.len() - 1) is External {
                            match run.last_code {
                                Some(c) => c,
                                None => 0,
                            }
                        } else {
                            run.last_status
                        },
                    ),
                ),
            )
        } else {
            run.drain(jobs)
        }
    }

    /// What a wait that returned means. A stopped child ends the drain at
    /// once: the children still held become one stopped job. A child of
    /// this run that ended is accounted for; anything else is waited
    /// over.
    pub open spec fn waited(self, jobs: JobTableView, pid: u32, raw: i32) -> StepView {
        if wait_status_stopped(raw) {
            self.hand_over(jobs, JobStatus::Stopped)
        } else if !self.held.contains(pid) {
            self.drain(jobs)
        } else {
            match wait_status_code(raw) {
                Some(code) => self.child_ended(jobs, pid, code),
                None => {
                    if self.stages.len() == 1 {
                        self.drain(jobs)
                    } else {
                        self.child_ended(jobs, pid, 1)
                    }
                },
            }
        }
    }

    /// The state, job table and action after the event `e`.
    pub open spec fn on_event(self, jobs: JobTableView, e: EventView) -> StepView {
        match self.phase {
            Phase::Launching => {
                let kind = self.kind(self.next);
                let program = self.stages[self.next].command.program;
                match e {
                    EventView::Spawned { pid, pgid } => {
                        if kind is External {
                            RunView {
                                held: self.held.push(pid),
                                pgid: match self.pgid {
                                    Some(g) => Some(g),
                                    None => Some(
                                        match pgid {
                                            Some(g) => g,
                                            None => pid,
                                        },
                                    ),
                                },
                                last_external: Some(pid),
                                ..self
                            }.advance(jobs)
                        } else {
                            self.reject(jobs)
                        }
                    },
                    EventView::SpawnFailed { not_found, detail } => {
                        if kind is External {
                            self.abort(
                                jobs,
                                spawn_error_message(program, not_found, detail),
                                spawn_error_code(not_found),
                            )
                        } else {
                            self.reject(jobs)
                        }
                    },
                    EventView::SetupFailed { message } => self.abort(jobs, message, 1),
                    EventView::WorkerStarted => {
                        if kind is BuiltinWorker {
                            RunView { workers: true, ..self }.advance(jobs)
                        } else {
                            self.reject(jobs)
                        }
                    },
                    EventView::BuiltinFinished { action } => {
                        if kind is BuiltinLast {
                            if self.stages.len() == 1 {
                                self.finish(jobs, CompletionView::plain(as_execution(action)))
                            } else {
                                RunView { last_status: builtin_code(action), ..self }.advance(jobs)
                            }
                        } else {
                            self.reject(jobs)
                        }
                    },
                    _ => self.reject(jobs),
                }
            },
            Phase::Joining => match e {
                EventView::WorkersJoined => self.drain(jobs),
                _ => self.reject(jobs),
            },
            Phase::Draining => match e {
                EventView::Waited { pid, raw_status } => self.waited(jobs, pid, raw_status),
                EventView::WaitFailed { detail } => self.finish(
                    jobs,
                    CompletionView {
                        action: ExecutionAction::Continue(1),
                        stdout: None,
                        stderr: Some(wait_error_message(self, detail)),
                        transfer: None,
                        wait: Seq::empty(),
                    },
                ),
                _ => self.reject(jobs),
            },
            Phase::Finished => self.reject(jobs),
        }
    }
}

/// What follows the launch of a stage does not depend on the phase that
/// the state names.
proof fn lemma_advance_ignores_phase(a: RunView, b: RunView, jobs: JobTableView)
    requires
        b == (RunView { phase: b.phase, ..a }),
    ensures
        a.advance(jobs) == b.advance(jobs),
{
}

/// The state before anything is launched.
pub open spec fn fresh_run(stages: Seq<PipelineCommandView>, background: bool, text: Seq<char>) -> RunView {
    RunView {
        stages,
        background,
        text,
        phase: Phase::Finished,
        next: 0,
        pgid: None,
        held: Seq::empty(),
        last_external: None,
        last_code: None,
        last_status: 0,
        workers: false,
    }
}

/// How a run starts. An empty pipeline returns 0 at once; `exit` is
/// rejected inside a pipeline of several stages; else the first stage is
/// asked for.
pub open spec fn start_spec(
    stages: Seq<PipelineCommandView>,
    background: bool,
    text: Seq<char>,
    jobs: JobTableView,
) -> StepView {
    let run = fresh_run(stages, background, text);
    if stages.len() == 0 {
        run.finish(jobs, CompletionView::plain(ExecutionAction::Continue(0)))
    } else if stages.len() >= 2 && has_exit_stage(stages) {
        run.finish(
            jobs,
            CompletionView {
                action: ExecutionAction::Continue(1),
                stdout: None,
                stderr: Some(exit_in_pipeline_message()),
                transfer: None,
                wait: Seq::empty(),
            },
        )
    } else {
        run.launch(jobs, 0)
    }
}


// ── The automaton, executable ────────────────────────────────────────────

/// A command or a pipeline that is being run.
pub struct PipelineRun {
    stages: Vec<PipelineCommand>,
    background: bool,
    text: String,
    phase: Phase,
    next: usize,
    pgid: Option<u32>,
    held: Vec<u32>,
    last_external: Option<u32>,
    last_code: Option<i32>,
    last_status: i32,
    workers: bool,
}

impl View for PipelineRun {
    type V = RunView;

    closed spec fn view(&self) -> RunView {
        RunView {
            stages: self.stages.deep_view(),
            background: self.background,
            text: self.text@,
            phase: self.phase,
            next: self.next as int,
            pgid: self.pgid,
            held: self.held@,
            last_external: self.last_external,
            last_code: self.last_code,
            last_status: self.last_status,
            workers: self.workers,
        }
    }
}

/// Removing the first occurrence of `pid`, which stands at `i`.
proof fn lemma_without_at(s: Seq<u32>, pid: u32, i: int)
    requires
        0 <= i < s.len(),
        s[i] == pid,
        forall|j: int| 0 <= j < i ==> s[j] != pid,
    ensures
        without(s, pid) == s.remove(i),
    decreases i,
{
    if i == 0 {
        assert(s.drop_first() =~= s.remove(0));
    } else {
        assert(s.first() == s[0]);
        let rest = s.drop_first();
        assert forall|j: int| 0 <= j < i - 1 implies rest[j] != pid by {
            assert(rest[j] == s[j + 1]);
        }
        lemma_without_at(rest, pid, i - 1);
        assert(seq![s.first()] + rest.remove(i - 1) =~= s.remove(i));
    }
}

/// Removing a member makes the sequence one shorter.
proof fn lemma_without_len(s: Seq<u32>, pid: u32)
    ensures
        without(s, pid).len() == if s.contains(pid) {
            s.len() - 1
        } else {
            s.len() as int
        },
    decreases s.len(),
{
    if s.len() == 0 {
    } else if s.first() == pid {
        assert(s[0] == pid);
    } else {
        let rest = s.drop_first();
        lemma_without_len(rest, pid);
        if s.contains(pid) {
            let i = choose|i: int| 0 <= i < s.len() && s[i] == pid;
            assert(rest[i - 1] == pid);
        } else if rest.contains(pid) {
            let i = choose|i: int| 0 <= i < rest.len() && rest[i] == pid;
            assert(s[i + 1] == pid);
        }
    }
}

/// The place of the first occurrence of `pid`.
fn position_of(held: &Vec<u32>, pid: u32) -> (r: Option<usize>)
    ensures
        match r {
            Some(i) => i < held.len() && held[i as int] == pid && forall|j: int|
                0 <= j < i ==> held[j] != pid,
            None => !held@.contains(pid),
        },
{
    let mut i: usize = 0;
    while i < held.len()
        invariant
            i <= held.len(),
            forall|j: int| 0 <= j < i ==> held[j] != pid,
        decreases held.len() - i,
    {
        if held[i] == pid {
            return Some(i);
        }
        i += 1;
    }
    None
}

fn join3(a: &str, b: &str, c: &str) -> (r: String)
    ensures
        r@ == a@ + b@ + c@,
{
    let mut out = String::from_str(a);
    out.append(b);
    out.append(c);
    out
}

fn numbered_line(id: usize, middle: &str, tail: &str) -> (r: String)
    ensures
        r@ == seq!['['] + decimal(id as nat) + middle@ + tail@,
{
    let mut out: Vec<char> = Vec::new();
    out.push('[');
    assert(out@ =~= seq!['[']);
    push_decimal(&mut out, id as u64);
    push_str(&mut out, middle);
    push_str(&mut out, tail);
    string_of(&out)
}

fn any_exit_stage(stages: &Vec<PipelineCommand>) -> (r: bool)
    ensures
        r == has_exit_stage(stages.deep_view()),
{
    let mut i: usize = 0;
    while i < stages.len()
        invariant
            i <= stages.len(),
            forall|k: int| 0 <= k < i ==> stages.deep_view()[k].command.program != "exit"@,
        decreases stages.len() - i,
    {
        assert(stages.deep_view()[i as int] == stages[i as int]@);
        if str_eq(stages[i].command.program.as_str(), "exit") {
            assert(stages.deep_view()[i as int].command.program == "exit"@);
            return true;
        }
        i += 1;
    }
    false
}

impl Completion {
    fn plain(action: ExecutionAction) -> (c: Completion)
        ensures
            c@ == CompletionView::plain(action),
    {
        Completion { action, stdout: None, stderr: None, transfer: None, wait: Vec::new() }
    }

    fn error(message: String, code: i32, wait: Vec<u32>) -> (c: Completion)
        ensures
            c@ == (CompletionView {
                action: ExecutionAction::Continue(code),
                stdout: None,
                stderr: Some(message@),
                transfer: None,
                wait: wait@,
            }),
    {
        Completion {
            action: ExecutionAction::Continue(code),
            stdout: None,
            stderr: Some(message),
            transfer: None,
            wait,
        }
    }
}

impl PipelineRun {
    #[verifier::type_invariant]
    spec fn inv(self) -> bool {
        self@.wf()
    }

    /// Whether the run is over.
    pub fn is_finished(&self) -> (r: bool)
        ensures
            r == (self@.phase is Finished),
            self@.wf(),
    {
        proof {
            use_type_invariant(self);
        }
        match self.phase {
            Phase::Finished => true,
            _ => false,
        }
    }

    /// The stage with this index.
    pub fn stage(&self, index: usize) -> (r: Option<&PipelineCommand>)
        ensures
            match r {
                Some(stage) => index < self@.stages.len() && stage@ == self@.stages[index as int],
                None => index >= self@.stages.len(),
            },
    {
        if index < self.stages.len() {
            assert(self.stages.deep_view()[index as int] == self.stages[index as int]@);
            Some(&self.stages[index])
        } else {
            None
        }
    }

    /// The command line of the run, as the job table shows it.
    pub fn command_text(&self) -> (r: &String)
        ensures
            r@ == self@.text,
    {
        &self.text
    }

    fn finish(self, c: Completion, Ghost(jobs): Ghost<JobTableView>) -> (r: (
        PipelineRun,
        PipelineAction,
    ))
        ensures
            r.0@ == self@.finish(jobs, c@).run,
            r.1@ == self@.finish(jobs, c@).action,
    {
        proof {
            use_type_invariant(&self);
        }
        (PipelineRun { phase: Phase::Finished, ..self }, PipelineAction::Finished(c))
    }

    fn abort(self, message: String, code: i32, Ghost(jobs): Ghost<JobTableView>) -> (r: (
        PipelineRun,
        PipelineAction,
    ))
        ensures
            r.0@ == self@.abort(jobs, message@, code).run,
            r.1@ == self@.abort(jobs, message@, code).action,
    {
        proof {
            use_type_invariant(&self);
        }
        let mut run = self;
        let mut wait: Vec<u32> = Vec::new();
        std::mem::swap(&mut wait, &mut run.held);
        let run = PipelineRun { phase: Phase::Finished, ..run };
        (run, PipelineAction::Finished(Completion::error(message, code, wait)))
    }

    fn reject(self, Ghost(jobs): Ghost<JobTableView>) -> (r: (PipelineRun, PipelineAction))
        ensures
            r.0@ == self@.reject(jobs).run,
            r.1@ == self@.reject(jobs).action,
    {
        (self, PipelineAction::Rejected)
    }

    fn foreground_group(&self) -> (r: u32)
        ensures
            r == self@.foreground_group(),
    {
        match self.pgid {
            Some(pgid) => pgid,
            None => 0,
        }
    }

    fn hand_over(self, status: JobStatus, jobs: &mut JobTable) -> (r: (PipelineRun, PipelineAction))
        requires
            old(jobs)@.next_id < usize::MAX,
            !(status is Done),
            self@.last_external is Some,
        ensures
            r.0@ == self@.hand_over(old(jobs)@, status).run,
            final(jobs)@ == self@.hand_over(old(jobs)@, status).jobs,
            r.1@ == self@.hand_over(old(jobs)@, status).action,
            final(jobs)@.wf(),
    {
        proof {
            use_type_invariant(&self);
        }
        let pid = match self.last_external {
            Some(pid) => pid,
            None => 0,
        };
        let pgid = self.foreground_group();
        let text = self.text.clone();
        let (id, _) = match status {
            JobStatus::Stopped => jobs.add_stopped_with_pgid(pid, text, pgid),
            _ => jobs.add_with_pgid(pid, text, pgid),
        };
        let line = match status {
            JobStatus::Stopped => numbered_line(id, "]  Stopped  ", self.text.as_str()),
            _ => {
                let mut out: Vec<char> = Vec::new();
                out.push('[');
                assert(out@ =~= seq!['[']);
                push_decimal(&mut out, id as u64);
                push_str(&mut out, "] ");
                push_decimal(&mut out, pid as u64);
                string_of(&out)
            },
        };
        let c = Completion {
            action: ExecutionAction::Continue(0),
            stdout: Some(line),
            stderr: None,
            transfer: Some((id, pid)),
            wait: Vec::new(),
        };
        let run = PipelineRun { phase: Phase::Finished, held: Vec::new(), ..self };
        (run, PipelineAction::Finished(c))
    }

    fn kind(&self, k: usize) -> (r: StageKind)
        requires
            k < self@.stages.len(),
        ensures
            r == self@.kind(k as int),
    {
        assert(self.stages.deep_view().len() == self.stages.len());
        assert(self.stages.deep_view()[k as int] == self.stages[k as int]@);
        if !is_builtin(self.stages[k].command.program.as_str()) {
            StageKind::External
        } else if k + 1 == self.stages.len() {
            StageKind::BuiltinLast
        } else {
            StageKind::BuiltinWorker
        }
    }

    fn launch(self, k: usize, Ghost(jobs): Ghost<JobTableView>) -> (r: (PipelineRun, PipelineAction))
        requires
            k < self@.stages.len(),
            self@.held.len() <= k,
        ensures
            r.0@ == self@.launch(jobs, k as int).run,
            r.1@ == self@.launch(jobs, k as int).action,
    {
        proof {
            use_type_invariant(&self);
        }
        assert(self.stages.deep_view()[k as int] == self.stages[k as int]@);
        let last = k + 1 == self.stages.len();
        let defaults = RedirectionDefaults {
            stdin: if k > 0 {
                InputHandle::Pipe
            } else {
                InputHandle::Inherit
            },
            stdout: if last {
                OutputHandle::Inherit
            } else {
                OutputHandle::Pipe
            },
            stderr: OutputHandle::Inherit,
        };
        let resolved = resolve_redirections(self.stages[k].redirections.as_slice(), defaults);
        match resolved {
            Err(message) => self.abort(message, 1, Ghost(jobs)),
            Ok(res) => {
                if !last && res.stdout_redirected {
                    let message = join3(
                        "jsh: cannot redirect stdout of non-terminal pipeline command '",
                        self.stages[k].command.program.as_str(),
                        "'",
                    );
                    self.abort(message, 1, Ghost(jobs))
                } else if !last && is_stateful_builtin(self.stages[k].command.program.as_str()) {
                    let message = join3(
                        "jsh: builtin '",
                        self.stages[k].command.program.as_str(),
                        "' is not supported in non-terminal pipeline positions",
                    );
                    self.abort(message, 1, Ghost(jobs))
                } else {
                    let launch = StageLaunch {
                        index: k,
                        kind: self.kind(k),
                        needs_pipe: !last,
                        stdin: res.stdin,
                        stdout: res.stdout,
                        stderr: res.stderr,
                        opens: res.opens,
                        join_group: self.pgid,
                    };
                    (
                        PipelineRun { phase: Phase::Launching, next: k, ..self },
                        PipelineAction::Launch(launch),
                    )
                }
            },
        }
    }

    fn drain(self, Ghost(jobs): Ghost<JobTableView>) -> (r: (PipelineRun, PipelineAction))
        requires
            self@.stages.len() > 0,
        ensures
            r.0@ == self@.drain(jobs).run,
            r.1@ == self@.drain(jobs).action,
    {
        proof {
            use_type_invariant(&self);
        }
        if self.held.len() == 0 {
            let c = Completion::plain(ExecutionAction::Continue(self.last_status));
            self.finish(c, Ghost(jobs))
        } else {
            let pgid = self.foreground_group();
            let only = if self.stages.len() == 1 {
                Some(self.held[0])
            } else {
                None
            };
            (PipelineRun { phase: Phase::Draining, ..self }, PipelineAction::Wait { pgid, only })
        }
    }

    fn settle(self, jobs: &mut JobTable) -> (r: (PipelineRun, PipelineAction))
        requires
            old(jobs)@.next_id < usize::MAX,
            self@.stages.len() > 0,
        ensures
            r.0@ == self@.settle(old(jobs)@).run,
            final(jobs)@ == self@.settle(old(jobs)@).jobs,
            r.1@ == self@.settle(old(jobs)@).action,
    {
        proof {
            use_type_invariant(&self);
        }
        if self.background {
            if self.last_external.is_some() {
                self.hand_over(JobStatus::Running, jobs)
            } else {
                self.finish(Completion::plain(ExecutionAction::Continue(0)), Ghost(jobs@))
            }
        } else if self.workers {
            (PipelineRun { phase: Phase::Joining, ..self }, PipelineAction::JoinWorkers)
        } else {
            self.drain(Ghost(jobs@))
        }
    }

    fn advance(self, jobs: &mut JobTable) -> (r: (PipelineRun, PipelineAction))
        requires
            old(jobs)@.next_id < usize::MAX,
            self@.next < self@.stages.len(),
            self@.held.len() <= self@.next + 1,
        ensures
            r.0@ == self@.advance(old(jobs)@).run,
            final(jobs)@ == self@.advance(old(jobs)@).jobs,
            r.1@ == self@.advance(old(jobs)@).action,
    {
        assert(self.stages.deep_view().len() == self.stages.len());
        if self.next + 1 < self.stages.len() {
            let k = self.next + 1;
            self.launch(k, Ghost(jobs@))
        } else {
            self.settle(jobs)
        }
    }

    fn child_ended(self, pid: u32, code: i32, Ghost(jobs): Ghost<JobTableView>) -> (r: (
        PipelineRun,
        PipelineAction,
    ))
        requires
            self@.held.contains(pid),
            self@.stages.len() > 0,
        ensures
            r.0@ == self@.child_ended(jobs, pid, code).run,
            r.1@ == self@.child_ended(jobs, pid, code).action,
    {
        proof {
            use_type_invariant(&self);
            lemma_without_len(self@.held, pid);
        }
        let last_code = if self.last_external == Some(pid) {
            Some(code)
        } else {
            self.last_code
        };
        let mut run = self;
        let mut held: Vec<u32> = Vec::new();
        std::mem::swap(&mut held, &mut run.held);
        match position_of(&held, pid) {
            Some(i) => {
                proof {
                    lemma_without_at(held@, pid, i as int);
                }
                held.remove(i);
            },
            None => {},
        }
        let phase = if held.len() == 0 {
            Phase::Finished
        } else {
            Phase::Draining
        };
        let run = PipelineRun { held, last_code, phase, ..run };
        if run.held.len() == 0 {
            let n = run.stages.len();
            let code = match run.kind(n - 1) {
                StageKind::External => match run.last_code {
                    Some(c) => c,
                    None => 0,
                },
                _ => run.last_status,
            };
            run.finish(Completion::plain(ExecutionAction::Continue(code)), Ghost(jobs))
        } else {
            run.drain(Ghost(jobs))
        }
    }

    fn waited(self, pid: u32, raw: i32, jobs: &mut JobTable) -> (r: (PipelineRun, PipelineAction))
        requires
            old(jobs)@.next_id < usize::MAX,
            self@.phase is Draining,
        ensures
            r.0@ == self@.waited(old(jobs)@, pid, raw).run,
            final(jobs)@ == self@.waited(old(jobs)@, pid, raw).jobs,
            r.1@ == self@.waited(old(jobs)@, pid, raw).action,
    {
        proof {
            use_type_invariant(&self);
        }
        if libc::WIFSTOPPED(raw) {
            return self.hand_over(JobStatus::Stopped, jobs);
        }
        if position_of(&self.held, pid).is_none() {
            return self.drain(Ghost(jobs@));
        }
        match exit_code_from_wait_status(raw) {
            Some(code) => self.child_ended(pid, code, Ghost(jobs@)),
            None => {
                if self.stages.len() == 1 {
                    self.drain(Ghost(jobs@))
                } else {
                    self.child_ended(pid, 1, Ghost(jobs@))
                }
            },
        }
    }

    fn wait_failed(self, detail: &String, Ghost(jobs): Ghost<JobTableView>) -> (r: (
        PipelineRun,
        PipelineAction,
    ))
        requires
            self@.stages.len() > 0,
        ensures
            r.1@ == ActionView::Finished(
                CompletionView {
                    action: ExecutionAction::Continue(1),
                    stdout: None,
                    stderr: Some(wait_error_message(self@, detail@)),
                    transfer: None,
                    wait: Seq::empty(),
                },
            ),
            r.0@ == (RunView { phase: Phase::Finished, ..self@ }),
    {
        assert(self.stages.deep_view()[0] == self.stages[0]@);
        let message = if self.stages.len() == 1 {
            let mut m = String::from_str("jsh: ");
            m.append(self.stages[0].command.program.as_str());
            m.append(": waitpid failed: ");
            m.append(detail.as_str());
            m
        } else {
            let mut m = String::from_str("jsh: failed waiting for pipeline jobs: ");
            m.append(detail.as_str());
            m
        };
        self.finish(Completion::error(message, 1, Vec::new()), Ghost(jobs))
    }

    fn launched(self, event: PipelineEvent, jobs: &mut JobTable) -> (r: (PipelineRun, PipelineAction))
        requires
            old(jobs)@.next_id < usize::MAX,
            self@.phase is Launching,
        ensures
            r.0@ == self@.on_event(old(jobs)@, event@).run,
            final(jobs)@ == self@.on_event(old(jobs)@, event@).jobs,
            r.1@ == self@.on_event(old(jobs)@, event@).action,
    {
        proof {
            use_type_invariant(&self);
        }
        let k = self.next;
        let kind = self.kind(k);
        assert(self.stages.deep_view().len() == self.stages.len());
        assert(self.stages.deep_view()[k as int] == self.stages[k as int]@);
        match event {
            PipelineEvent::Spawned { pid, pgid } => match kind {
                StageKind::External => {
                    let group = match self.pgid {
                        Some(g) => g,
                        None => match pgid {
                            Some(g) => g,
                            None => pid,
                        },
                    };
                    let mut run = self;
                    let mut held: Vec<u32> = Vec::new();
                    std::mem::swap(&mut held, &mut run.held);
                    held.push(pid);
                    let ghost grown = RunView {
                        held: self@.held.push(pid),
                        pgid: Some(group),
                        last_external: Some(pid),
                        ..self@
                    };
                    let run = PipelineRun {
                        held,
                        pgid: Some(group),
                        last_external: Some(pid),
                        phase: Phase::Joining,
                        ..run
                    };
                    assert(run@.advance(jobs@) == grown.advance(jobs@)) by {
                        lemma_advance_ignores_phase(grown, run@, jobs@);
                    }
                    run.advance(jobs)
                },
                _ => self.reject(Ghost(jobs@)),
            },
            PipelineEvent::SpawnFailed { not_found, detail } => match kind {
                StageKind::External => {
                    let program = self.stages[k].command.program.as_str();
                    if not_found {
                        let mut m = String::from_str("jsh: command not found: ");
                        m.append(program);
                        self.abort(m, 127, Ghost(jobs@))
                    } else {
                        let mut m = String::from_str("jsh: ");
                        m.append(program);
                        m.append(": ");
                        m.append(detail.as_str());
                        self.abort(m, 126, Ghost(jobs@))
                    }
                },
                _ => self.reject(Ghost(jobs@)),
            },
            PipelineEvent::SetupFailed { message } => self.abort(message, 1, Ghost(jobs@)),
            PipelineEvent::WorkerStarted => match kind {
                StageKind::BuiltinWorker => {
                    let run = PipelineRun { workers: true, ..self };
                    run.advance(jobs)
                },
                _ => self.reject(Ghost(jobs@)),
            },
            PipelineEvent::BuiltinFinished { action } => match kind {
                StageKind::BuiltinLast => {
                    if self.stages.len() == 1 {
                        let done = match action {
                            BuiltinAction::Continue(code) => ExecutionAction::Continue(code),
                            BuiltinAction::Exit(code) => ExecutionAction::Exit(code),
                        };
                        self.finish(Completion::plain(done), Ghost(jobs@))
                    } else {
                        let code = match action {
                            BuiltinAction::Continue(code) => code,
                            BuiltinAction::Exit(code) => code,
                        };
                        let run = PipelineRun { last_status: code, ..self };
                        run.advance(jobs)
                    }
                },
                _ => self.reject(Ghost(jobs@)),
            },
            _ => self.reject(Ghost(jobs@)),
        }
    }

    fn on_event(self, event: PipelineEvent, jobs: &mut JobTable) -> (r: (PipelineRun, PipelineAction))
        requires
            old(jobs)@.next_id < usize::MAX,
        ensures
            r.0@ == self@.on_event(old(jobs)@, event@).run,
            final(jobs)@ == self@.on_event(old(jobs)@, event@).jobs,
            r.1@ == self@.on_event(old(jobs)@, event@).action,
    {
        proof {
            use_type_invariant(&self);
        }
        match self.phase {
            Phase::Launching => self.launched(event, jobs),
            Phase::Joining => match event {
                PipelineEvent::WorkersJoined => self.drain(Ghost(jobs@)),
                _ => self.reject(Ghost(jobs@)),
            },
            Phase::Draining => match event {
                PipelineEvent::Waited { pid, raw_status } => self.waited(pid, raw_status, jobs),
                PipelineEvent::WaitFailed { detail } => self.wait_failed(&detail, Ghost(jobs@)),
                _ => self.reject(Ghost(jobs@)),
            },
            Phase::Finished => self.reject(Ghost(jobs@)),
        }
    }

    fn idle() -> (r: PipelineRun)
        ensures
            r@ == fresh_run(Seq::empty(), false, Seq::empty()),
    {
        let r = PipelineRun {
            stages: Vec::new(),
            background: false,
            text: String::new(),
            phase: Phase::Finished,
            next: 0,
            pgid: None,
            held: Vec::new(),
            last_external: None,
            last_code: None,
            last_status: 0,
            workers: false,
        };
        assert(r.stages.deep_view() =~= Seq::empty());
        r
    }

    /// Takes what came of the last action and says what to do next.
    ///
    /// The job table gets a job where the run hands its children over: in
    /// the background once all stages are launched, in the foreground
    /// when a child was stopped. The table must have room for one.
    pub fn step(&mut self, event: PipelineEvent, jobs: &mut JobTable) -> (action: PipelineAction)
        requires
            old(jobs)@.next_id < usize::MAX,
        ensures
            final(self)@ == old(self)@.on_event(old(jobs)@, event@).run,
            final(jobs)@ == old(self)@.on_event(old(jobs)@, event@).jobs,
            action@ == old(self)@.on_event(old(jobs)@, event@).action,
            old(self)@.wf(),
            final(self)@.wf(),
    {
        proof {
            use_type_invariant(&*self);
        }
        let mut run = PipelineRun::idle();
        std::mem::swap(self, &mut run);
        let (next, action) = run.on_event(event, jobs);
        proof {
            use_type_invariant(&next);
        }
        *self = next;
        action
    }
}

/// Starts the run of a pipeline: an ordered list of stages, to be run in
/// the foreground or in the background, with the text of the command line
/// for the job table. Returns the run and the first thing to do.
pub fn execute_pipeline(
    commands: Vec<PipelineCommand>,
    background: bool,
    jobs: &JobTable,
    command_text: &str,
) -> (r: (PipelineRun, PipelineAction))
    ensures
        r.0@ == start_spec(commands.deep_view(), background, command_text@, jobs@).run,
        r.1@ == start_spec(commands.deep_view(), background, command_text@, jobs@).action,
        r.0@.wf(),
{
    assert(commands.deep_view().len() == commands.len());
    let run = PipelineRun {
        stages: commands,
        background,
        text: String::from_str(command_text),
        phase: Phase::Finished,
        next: 0,
        pgid: None,
        held: Vec::new(),
        last_external: None,
        last_code: None,
        last_status: 0,
        workers: false,
    };
    assert(run.stages.deep_view().len() == run.stages.len());
    let r = if run.stages.len() == 0 {
        run.finish(Completion::plain(ExecutionAction::Continue(0)), Ghost(jobs@))
    } else if run.stages.len() >= 2 && any_exit_stage(&run.stages) {
        let message = String::from_str("jsh: 'exit' is not supported in pipelines");
        run.finish(Completion::error(message, 1, Vec::new()), Ghost(jobs@))
    } else {
        run.launch(0, Ghost(jobs@))
    };
    proof {
        use_type_invariant(&r.0);
    }
    r
}

/// Starts the run of a single command with its redirections: a builtin
/// runs on the shell's thread, whatever `background` says; any other
/// program is spawned in a process group of its own.
pub fn execute(
    cmd: Command,
    redirections: Vec<Redirection>,
    background: bool,
    jobs: &JobTable,
    command_text: &str,
) -> (r: (PipelineRun, PipelineAction))
    ensures
        ({
            let stage = PipelineCommandView { command: cmd@, redirections: redirections.deep_view() };
            let start = start_spec(seq![stage], background, command_text@, jobs@);
            r.0@ == start.run && r.1@ == start.action
        }),
        r.0@.wf(),
{
    let mut commands: Vec<PipelineCommand> = Vec::new();
    commands.push(PipelineCommand { command: cmd, redirections });
    assert(commands.deep_view() =~= seq![
        PipelineCommandView { command: cmd@, redirections: redirections.deep_view() },
    ]);
    execute_pipeline(commands, background, jobs, command_text)
}


// ── Laws ─────────────────────────────────────────────────────────────────

/// A run that has ended holds no child.
pub open spec fn settled_run(run: RunView) -> bool {
    run.wf() && (run.phase is Finished ==> run.held.len() == 0)
}

/// The state and job table after a series of events.
pub open spec fn after_events(run: RunView, jobs: JobTableView, events: Seq<EventView>) -> StepView
    decreases events.len(),
{
    if events.len() == 0 {
        StepView { run, jobs, action: ActionView::Rejected }
    } else {
        let before = after_events(run, jobs, events.drop_last());
        before.run.on_event(before.jobs, events.last())
    }
}

/// An event leaves the state well-formed; and unless a wait failed, a run
/// that ends with the event holds no child any more: each child it spawned
/// was found to have exited, went to the job table with its group, or was
/// handed back to be waited for.
pub proof fn lemma_step_accounts_for_children(run: RunView, jobs: JobTableView, e: EventView)
    requires
        settled_run(run),
    ensures
        run.on_event(jobs, e).run.wf(),
        !(e is WaitFailed) ==> settled_run(run.on_event(jobs, e).run),
{
    match e {
        EventView::Waited { pid, raw_status } => {
            lemma_without_len(run.held, pid);
        },
        _ => {},
    }
}

/// A run starts well-formed, and one that ends at once holds no child.
pub proof fn lemma_start_is_settled(
    stages: Seq<PipelineCommandView>,
    background: bool,
    text: Seq<char>,
    jobs: JobTableView,
)
    requires
        stages.len() <= usize::MAX,
    ensures
        settled_run(start_spec(stages, background, text, jobs).run),
{
}

/// After the executor has returned, it holds no child process: whatever
/// pipeline is run, and whatever the launches and waits report, as long
/// as no wait fails, every child that was started has exited, was handed
/// to the job table, or was handed back to be waited for.
pub proof fn lemma_run_accounts_for_children(
    stages: Seq<PipelineCommandView>,
    background: bool,
    text: Seq<char>,
    jobs: JobTableView,
    events: Seq<EventView>,
)
    requires
        stages.len() <= usize::MAX,
        forall|i: int| 0 <= i < events.len() ==> !(#[trigger] events[i] is WaitFailed),
    ensures
        ({
            let start = start_spec(stages, background, text, jobs);
            settled_run(after_events(start.run, start.jobs, events).run)
        }),
    decreases events.len(),
{
    let start = start_spec(stages, background, text, jobs);
    lemma_start_is_settled(stages, background, text, jobs);
    if events.len() > 0 {
        let earlier = events.drop_last();
        assert forall|i: int| 0 <= i < earlier.len() implies !(#[trigger] earlier[i] is WaitFailed) by {
            assert(earlier[i] == events[i]);
        }
        lemma_run_accounts_for_children(stages, background, text, jobs, earlier);
        let before = after_events(start.run, start.jobs, earlier);
        assert(events.last() == events[events.len() - 1]);
        lemma_step_accounts_for_children(before.run, before.jobs, events.last());
    }
}

} // verus!
