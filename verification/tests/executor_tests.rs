use james_shell::builtins::BuiltinAction;
use james_shell::executor::{
    execute, execute_pipeline, ExecutionAction, PipelineAction, PipelineCommand, PipelineEvent,
    StageKind,
};
use james_shell::jobs::{JobStatus, JobTable};
use james_shell::parser::Command;
use james_shell::redirect::{RedirectTarget, Redirection};
use james_shell::resolve::{InputHandle, OutputHandle};

fn stage(program: &str, args: &[&str]) -> PipelineCommand {
    PipelineCommand {
        command: Command {
            program: program.to_string(),
            args: args.iter().map(|a| a.to_string()).collect(),
        },
        redirections: vec![],
    }
}

fn stage_with(program: &str, redirections: Vec<Redirection>) -> PipelineCommand {
    PipelineCommand {
        command: Command { program: program.to_string(), args: vec![] },
        redirections,
    }
}

fn exited(code: i32) -> i32 {
    code << 8
}

#[test]
fn empty_pipeline_returns_zero() {
    let jobs = JobTable::new();
    let (run, action) = execute_pipeline(vec![], false, &jobs, "");
    assert!(run.is_finished());
    match action {
        PipelineAction::Finished(done) => {
            assert_eq!(done.action, ExecutionAction::Continue(0));
            assert!(done.stderr.is_none() && done.stdout.is_none() && done.wait.is_empty());
        }
        other => panic!("{other:?}"),
    }
}

#[test]
fn exit_is_rejected_inside_a_pipeline() {
    let jobs = JobTable::new();
    let (_, action) = execute_pipeline(
        vec![stage("echo", &["x"]), stage("exit", &[])],
        false,
        &jobs,
        "echo x | exit",
    );
    match action {
        PipelineAction::Finished(done) => {
            assert_eq!(done.action, ExecutionAction::Continue(1));
            assert_eq!(done.stderr.unwrap(), "jsh: 'exit' is not supported in pipelines");
        }
        other => panic!("{other:?}"),
    }
}

#[test]
fn foreground_pipeline_runs_to_the_exit_code_of_the_last_stage() {
    let mut jobs = JobTable::new();
    let (mut run, action) = execute_pipeline(
        vec![stage("echo", &["hello"]), stage("sort", &[]), stage("head", &["-1"])],
        false,
        &jobs,
        "echo hello | sort | head -1",
    );
    match action {
        PipelineAction::Launch(launch) => {
            assert_eq!(launch.index, 0);
            assert_eq!(launch.kind, StageKind::BuiltinWorker);
            assert!(launch.needs_pipe);
            assert_eq!(launch.stdin, InputHandle::Inherit);
            assert_eq!(launch.stdout, OutputHandle::Pipe);
            assert_eq!(launch.stderr, OutputHandle::Inherit);
        }
        other => panic!("{other:?}"),
    }
    assert_eq!(run.stage(0).unwrap().command.program, "echo");
    assert!(run.stage(3).is_none());
    assert_eq!(run.command_text(), "echo hello | sort | head -1");
    match run.step(PipelineEvent::WorkerStarted, &mut jobs) {
        PipelineAction::Launch(launch) => {
            assert_eq!((launch.index, launch.kind), (1, StageKind::External));
            assert_eq!(launch.stdin, InputHandle::Pipe);
            assert_eq!(launch.stdout, OutputHandle::Pipe);
            assert_eq!(launch.join_group, None);
        }
        other => panic!("{other:?}"),
    }
    match run.step(PipelineEvent::Spawned { pid: 500, pgid: None }, &mut jobs) {
        PipelineAction::Launch(launch) => {
            assert_eq!((launch.index, launch.kind), (2, StageKind::External));
            assert!(!launch.needs_pipe);
            assert_eq!(launch.stdout, OutputHandle::Inherit);
            assert_eq!(launch.join_group, Some(500));
        }
        other => panic!("{other:?}"),
    }
    assert!(matches!(
        run.step(PipelineEvent::Spawned { pid: 501, pgid: None }, &mut jobs),
        PipelineAction::JoinWorkers
    ));
    assert!(matches!(
        run.step(PipelineEvent::Spawned { pid: 502, pgid: None }, &mut jobs),
        PipelineAction::Rejected
    ));
    assert!(matches!(
        run.step(PipelineEvent::WorkersJoined, &mut jobs),
        PipelineAction::Wait { pgid: 500, only: None }
    ));
    // The last stage ends first, killed by a signal; then an unrelated child; then the first.
    assert!(matches!(
        run.step(PipelineEvent::Waited { pid: 501, raw_status: 13 }, &mut jobs),
        PipelineAction::Wait { pgid: 500, only: None }
    ));
    assert!(matches!(
        run.step(PipelineEvent::Waited { pid: 999, raw_status: exited(3) }, &mut jobs),
        PipelineAction::Wait { pgid: 500, only: None }
    ));
    match run.step(PipelineEvent::Waited { pid: 500, raw_status: exited(0) }, &mut jobs) {
        PipelineAction::Finished(done) => {
            assert_eq!(done.action, ExecutionAction::Continue(141));
            assert!(done.transfer.is_none() && done.wait.is_empty());
        }
        other => panic!("{other:?}"),
    }
    assert!(run.is_finished());
    assert!(jobs.jobs_sorted().is_empty());
    assert!(matches!(
        run.step(PipelineEvent::WorkersJoined, &mut jobs),
        PipelineAction::Rejected
    ));
}

#[test]
fn last_stage_builtin_gives_the_exit_code() {
    let mut jobs = JobTable::new();
    let (mut run, _) = execute_pipeline(
        vec![stage("yes", &[]), stage("echo", &["done"])],
        false,
        &jobs,
        "yes | echo done",
    );
    match run.step(PipelineEvent::Spawned { pid: 40, pgid: None }, &mut jobs) {
        PipelineAction::Launch(launch) => assert_eq!(launch.kind, StageKind::BuiltinLast),
        other => panic!("{other:?}"),
    }
    assert!(matches!(
        run.step(
            PipelineEvent::BuiltinFinished { action: BuiltinAction::Continue(5) },
            &mut jobs
        ),
        PipelineAction::Wait { pgid: 40, only: None }
    ));
    match run.step(PipelineEvent::Waited { pid: 40, raw_status: 13 }, &mut jobs) {
        PipelineAction::Finished(done) => assert_eq!(done.action, ExecutionAction::Continue(5)),
        other => panic!("{other:?}"),
    }
}

#[test]
fn background_pipeline_becomes_one_job() {
    let mut jobs = JobTable::new();
    let (mut run, _) = execute_pipeline(
        vec![stage("sleep", &["5"]), stage("cat", &[])],
        true,
        &jobs,
        "sleep 5 | cat",
    );
    run.step(PipelineEvent::Spawned { pid: 700, pgid: None }, &mut jobs);
    match run.step(PipelineEvent::Spawned { pid: 701, pgid: None }, &mut jobs) {
        PipelineAction::Finished(done) => {
            assert_eq!(done.action, ExecutionAction::Continue(0));
            assert_eq!(done.stdout.unwrap(), "[1] 701");
            assert_eq!(done.transfer, Some((1, 701)));
            assert!(done.wait.is_empty());
        }
        other => panic!("{other:?}"),
    }
    let job = jobs.get(1).unwrap();
    assert_eq!((job.pid, job.pgid, job.status), (701, 700, JobStatus::Running));
    assert_eq!(job.command, "sleep 5 | cat");
}

#[test]
fn stopped_foreground_pipeline_becomes_a_stopped_job() {
    let mut jobs = JobTable::new();
    jobs.add(1, "earlier".to_string());
    let (mut run, _) = execute_pipeline(
        vec![stage("vim", &[]), stage("cat", &[])],
        false,
        &jobs,
        "vim | cat",
    );
    run.step(PipelineEvent::Spawned { pid: 30, pgid: None }, &mut jobs);
    run.step(PipelineEvent::Spawned { pid: 31, pgid: None }, &mut jobs);
    match run.step(
        PipelineEvent::Waited { pid: 30, raw_status: (20 << 8) | 0x7f },
        &mut jobs,
    ) {
        PipelineAction::Finished(done) => {
            assert_eq!(done.action, ExecutionAction::Continue(0));
            assert_eq!(done.stdout.unwrap(), "[2]  Stopped  vim | cat");
            assert_eq!(done.transfer, Some((2, 31)));
        }
        other => panic!("{other:?}"),
    }
    let job = jobs.get(2).unwrap();
    assert_eq!((job.pid, job.pgid, job.status), (31, 30, JobStatus::Stopped));
}

#[test]
fn nonterminal_stage_may_not_redirect_stdout() {
    let jobs = JobTable::new();
    let to_file = Redirection { fd: 1, target: RedirectTarget::File("out".to_string()) };
    let (_, action) = execute_pipeline(
        vec![stage_with("echo", vec![to_file]), stage("cat", &[])],
        false,
        &jobs,
        "echo > out | cat",
    );
    match action {
        PipelineAction::Finished(done) => {
            assert_eq!(done.action, ExecutionAction::Continue(1));
            assert_eq!(
                done.stderr.unwrap(),
                "jsh: cannot redirect stdout of non-terminal pipeline command 'echo'"
            );
        }
        other => panic!("{other:?}"),
    }
}

#[test]
fn stateful_builtin_is_rejected_before_the_last_stage() {
    let mut jobs = JobTable::new();
    let (mut run, _) = execute_pipeline(
        vec![stage("ls", &[]), stage("export", &["A=1"]), stage("cat", &[])],
        false,
        &jobs,
        "ls | export A=1 | cat",
    );
    match run.step(PipelineEvent::Spawned { pid: 9, pgid: None }, &mut jobs) {
        PipelineAction::Finished(done) => {
            assert_eq!(done.action, ExecutionAction::Continue(1));
            assert_eq!(
                done.stderr.unwrap(),
                "jsh: builtin 'export' is not supported in non-terminal pipeline positions"
            );
            assert_eq!(done.wait, vec![9]);
        }
        other => panic!("{other:?}"),
    }
    let (_, action) = execute_pipeline(
        vec![stage("ls", &[]), stage("cd", &["/"])],
        false,
        &jobs,
        "ls | cd /",
    );
    assert!(matches!(action, PipelineAction::Launch(_)));
}

#[test]
fn failures_hand_the_children_back() {
    let mut jobs = JobTable::new();
    let bad = Redirection { fd: 4, target: RedirectTarget::Fd(1) };
    let (mut run, _) = execute_pipeline(
        vec![stage("a", &[]), stage("b", &[]), stage_with("c", vec![bad])],
        false,
        &jobs,
        "a | b | c 4>&1",
    );
    run.step(PipelineEvent::Spawned { pid: 11, pgid: None }, &mut jobs);
    match run.step(PipelineEvent::Spawned { pid: 12, pgid: None }, &mut jobs) {
        PipelineAction::Finished(done) => {
            assert_eq!(done.action, ExecutionAction::Continue(1));
            assert_eq!(done.stderr.unwrap(), "jsh: unsupported redirection: fd 4 -> Fd(1)");
            assert_eq!(done.wait, vec![11, 12]);
        }
        other => panic!("{other:?}"),
    }

    let (mut run, _) =
        execute_pipeline(vec![stage("a", &[]), stage("nope", &[])], false, &jobs, "a | nope");
    run.step(PipelineEvent::Spawned { pid: 21, pgid: None }, &mut jobs);
    match run.step(
        PipelineEvent::SpawnFailed { not_found: true, detail: "No such file".to_string() },
        &mut jobs,
    ) {
        PipelineAction::Finished(done) => {
            assert_eq!(done.action, ExecutionAction::Continue(127));
            assert_eq!(done.stderr.unwrap(), "jsh: command not found: nope");
            assert_eq!(done.wait, vec![21]);
        }
        other => panic!("{other:?}"),
    }

    let (mut run, _) = execute_pipeline(vec![stage("a", &[]), stage("b", &[])], false, &jobs, "a | b");
    match run.step(
        PipelineEvent::SetupFailed { message: "jsh: failed to create pipe: EMFILE".to_string() },
        &mut jobs,
    ) {
        PipelineAction::Finished(done) => {
            assert_eq!(done.action, ExecutionAction::Continue(1));
            assert_eq!(done.stderr.unwrap(), "jsh: failed to create pipe: EMFILE");
            assert!(done.wait.is_empty());
        }
        other => panic!("{other:?}"),
    }
}

#[test]
fn single_command_paths() {
    let mut jobs = JobTable::new();
    // A builtin runs on the shell's thread, and may ask to leave the shell.
    let (mut run, action) =
        execute(Command { program: "exit".to_string(), args: vec![] }, vec![], true, &jobs, "exit");
    match action {
        PipelineAction::Launch(launch) => {
            assert_eq!(launch.kind, StageKind::BuiltinLast);
            assert!(!launch.needs_pipe);
        }
        other => panic!("{other:?}"),
    }
    match run.step(PipelineEvent::BuiltinFinished { action: BuiltinAction::Exit(3) }, &mut jobs) {
        PipelineAction::Finished(done) => assert_eq!(done.action, ExecutionAction::Exit(3)),
        other => panic!("{other:?}"),
    }

    // A program that cannot be executed.
    let (mut run, _) =
        execute(Command { program: "./x".to_string(), args: vec![] }, vec![], false, &jobs, "./x");
    match run.step(
        PipelineEvent::SpawnFailed { not_found: false, detail: "Permission denied".to_string() },
        &mut jobs,
    ) {
        PipelineAction::Finished(done) => {
            assert_eq!(done.action, ExecutionAction::Continue(126));
            assert_eq!(done.stderr.unwrap(), "jsh: ./x: Permission denied");
        }
        other => panic!("{other:?}"),
    }

    // In the foreground the one child is waited for by its pid.
    let (mut run, _) =
        execute(Command { program: "sh".to_string(), args: vec![] }, vec![], false, &jobs, "sh");
    assert!(matches!(
        run.step(PipelineEvent::Spawned { pid: 77, pgid: Some(70) }, &mut jobs),
        PipelineAction::Wait { pgid: 70, only: Some(77) }
    ));
    assert!(matches!(
        run.step(PipelineEvent::Waited { pid: 77, raw_status: 0xffff }, &mut jobs),
        PipelineAction::Wait { pgid: 70, only: Some(77) }
    ));
    match run.step(PipelineEvent::Waited { pid: 77, raw_status: 7 << 8 }, &mut jobs) {
        PipelineAction::Finished(done) => assert_eq!(done.action, ExecutionAction::Continue(7)),
        other => panic!("{other:?}"),
    }

    // In the background it becomes a job under the group that was reported.
    let (mut run, _) = execute(
        Command { program: "sleep".to_string(), args: vec!["9".to_string()] },
        vec![],
        true,
        &jobs,
        "sleep 9",
    );
    match run.step(PipelineEvent::Spawned { pid: 88, pgid: Some(80) }, &mut jobs) {
        PipelineAction::Finished(done) => {
            assert_eq!(done.stdout.unwrap(), "[1] 88");
            assert_eq!(done.transfer, Some((1, 88)));
        }
        other => panic!("{other:?}"),
    }
    assert_eq!(jobs.get(1).unwrap().pgid, 80);
}

#[test]
fn a_failed_wait_is_reported() {
    let mut jobs = JobTable::new();
    let (mut run, _) = execute_pipeline(vec![stage("a", &[]), stage("b", &[])], false, &jobs, "a | b");
    run.step(PipelineEvent::Spawned { pid: 1, pgid: None }, &mut jobs);
    run.step(PipelineEvent::Spawned { pid: 2, pgid: None }, &mut jobs);
    match run.step(PipelineEvent::WaitFailed { detail: "ECHILD".to_string() }, &mut jobs) {
        PipelineAction::Finished(done) => {
            assert_eq!(done.action, ExecutionAction::Continue(1));
            assert_eq!(done.stderr.unwrap(), "jsh: failed waiting for pipeline jobs: ECHILD");
        }
        other => panic!("{other:?}"),
    }
    let (mut run, _) =
        execute(Command { program: "a".to_string(), args: vec![] }, vec![], false, &jobs, "a");
    run.step(PipelineEvent::Spawned { pid: 1, pgid: None }, &mut jobs);
    match run.step(PipelineEvent::WaitFailed { detail: "EINVAL".to_string() }, &mut jobs) {
        PipelineAction::Finished(done) => {
            assert_eq!(done.stderr.unwrap(), "jsh: a: waitpid failed: EINVAL");
        }
        other => panic!("{other:?}"),
    }
}
