use james_shell::builtins::{
    builtin_echo, execute, fg_finish, BuiltinAction, BuiltinStep, ForegroundReport, WaitAction,
};
use james_shell::env::Environment;
use james_shell::executor::{
    execute_pipeline, ExecutionAction, PipelineAction, PipelineCommand, PipelineEvent, StageKind,
};
use james_shell::expander::expand_words;
use james_shell::job_control::{classify_wait, WaitOutcome};
use james_shell::jobs::JobTable;
use james_shell::parser::tokenize;
use james_shell::shell::{parse_line, ChainRun, ChainStep};

const SIGINT: i32 = 2;
const SIGPIPE: i32 = 13;

fn commands_of(line: &str, env: &Environment, code: i32) -> (Vec<PipelineCommand>, bool) {
    let parsed = parse_line(line).unwrap().unwrap();
    let mut run = ChainRun::new(parsed, code);
    match run.next(env) {
        ChainStep::Run { commands, background } => (commands, background),
        other => panic!("{other:?}"),
    }
}

fn expand(line: &str, env: &Environment, code: i32) -> Vec<String> {
    expand_words(&tokenize(line).unwrap(), code, env)
}

#[test]
fn echo_into_sort_succeeds() {
    let env = Environment::new(10);
    let mut jobs = JobTable::new();
    let (commands, background) = commands_of("echo hello | sort", &env, 0);
    let (mut run, action) = execute_pipeline(commands, background, &jobs, "echo hello | sort");
    match action {
        PipelineAction::Launch(launch) => assert_eq!(launch.kind, StageKind::BuiltinWorker),
        other => panic!("{other:?}"),
    }
    let echo = run.stage(0).unwrap();
    assert!(builtin_echo(&echo.command.args).stdout.contains("hello"));
    assert!(matches!(run.step(PipelineEvent::WorkerStarted, &mut jobs), PipelineAction::Launch(_)));
    assert!(matches!(
        run.step(PipelineEvent::Spawned { pid: 20, pgid: None }, &mut jobs),
        PipelineAction::JoinWorkers
    ));
    assert!(matches!(
        run.step(PipelineEvent::WorkersJoined, &mut jobs),
        PipelineAction::Wait { pgid: 20, only: None }
    ));
    match run.step(PipelineEvent::Waited { pid: 20, raw_status: 0 }, &mut jobs) {
        PipelineAction::Finished(done) => assert_eq!(done.action, ExecutionAction::Continue(0)),
        other => panic!("{other:?}"),
    }
}

#[test]
fn large_builtin_output_goes_through_a_worker() {
    let mut env = Environment::new(10);
    let mut jobs = JobTable::new();
    let big = "x".repeat(200_000);
    match execute("export", &[format!("BIG={big}")], &mut env, &mut jobs) {
        BuiltinStep::Done(out) => assert_eq!(out.action, BuiltinAction::Continue(0)),
        other => panic!("{other:?}"),
    }
    let (commands, _) = commands_of("echo $BIG | sort", &env, 0);
    assert_eq!(commands[0].command.args[0].len(), 200_000);
    let out = builtin_echo(&commands[0].command.args);
    assert!(out.stdout.bytes().filter(|b| *b == b'x').count() >= 200_000);
    let (_, action) = execute_pipeline(commands, false, &jobs, "echo $BIG | sort");
    match action {
        PipelineAction::Launch(launch) => {
            assert_eq!(launch.kind, StageKind::BuiltinWorker);
            assert!(launch.needs_pipe);
        }
        other => panic!("{other:?}"),
    }
}

#[test]
fn failed_and_is_skipped_and_or_runs() {
    let env = Environment::new(10);
    let parsed = parse_line("false && echo skipped || echo ran").unwrap().unwrap();
    let mut run = ChainRun::new(parsed, 0);
    let mut ran = Vec::new();
    loop {
        match run.next(&env) {
            ChainStep::Run { commands, .. } => {
                let command = &commands[0].command;
                let code = if command.program == "false" {
                    1
                } else {
                    ran.push(builtin_echo(&command.args).stdout);
                    0
                };
                run.completed(ExecutionAction::Continue(code));
            }
            ChainStep::Finished => break,
            other => panic!("{other:?}"),
        }
    }
    assert_eq!(ran, vec!["ran\n"]);
    assert_eq!(run.last_exit_code(), 0);
}

#[test]
fn wait_gives_the_exit_code_of_the_background_job() {
    let mut env = Environment::new(10);
    let mut jobs = JobTable::new();
    let (commands, background) = commands_of("sh -c 'sleep 1; exit 7' &", &env, 0);
    assert!(background);
    assert_eq!(commands[0].command.args, vec!["-c", "sleep 1; exit 7"]);
    let (mut run, _) = execute_pipeline(commands, background, &jobs, "sh -c 'sleep 1; exit 7'");
    match run.step(PipelineEvent::Spawned { pid: 300, pgid: Some(300) }, &mut jobs) {
        PipelineAction::Finished(done) => assert_eq!(done.stdout.unwrap(), "[1] 300"),
        other => panic!("{other:?}"),
    }
    let mut wait = match execute("wait", &[], &mut env, &mut jobs) {
        BuiltinStep::Wait(wait) => wait,
        other => panic!("{other:?}"),
    };
    assert!(matches!(wait.advance(&jobs), WaitAction::Wait { job_id: 1, pid: 300 }));
    wait.waited(&mut jobs, Ok(7));
    let code = match wait.advance(&jobs) {
        WaitAction::Done(out) => match out.action {
            BuiltinAction::Continue(code) => code,
            other => panic!("{other:?}"),
        },
        other => panic!("{other:?}"),
    };
    assert_eq!(expand("echo WAIT:$?", &env, code), vec!["echo", "WAIT:7"]);
}

#[test]
fn fg_keeps_the_exit_code_of_a_signal() {
    let mut env = Environment::new(10);
    let mut jobs = JobTable::new();
    jobs.add(400, "sh -c 'sleep 1; kill -INT $$'".to_string());
    let request = match execute("fg", &[], &mut env, &mut jobs) {
        BuiltinStep::Foreground(request) => request,
        other => panic!("{other:?}"),
    };
    let outcome = classify_wait(SIGINT).unwrap();
    assert_eq!(outcome, WaitOutcome::Exited(130));
    let out = fg_finish(
        &mut jobs,
        &request,
        ForegroundReport { terminal_error: None, resume_error: None, wait: Ok(outcome) },
    );
    let code = match out.action {
        BuiltinAction::Continue(code) => code,
        other => panic!("{other:?}"),
    };
    assert_eq!(expand("echo FG:$?", &env, code), vec!["echo", "FG:130"]);
    assert!(jobs.jobs_sorted().is_empty());
}

#[test]
fn broken_pipe_upstream_leaves_the_pipeline_successful() {
    let env = Environment::new(10);
    let mut jobs = JobTable::new();
    let (commands, background) = commands_of("yes | head -1", &env, 0);
    let (mut run, _) = execute_pipeline(commands, background, &jobs, "yes | head -1");
    run.step(PipelineEvent::Spawned { pid: 50, pgid: None }, &mut jobs);
    run.step(PipelineEvent::Spawned { pid: 51, pgid: None }, &mut jobs);
    assert!(matches!(
        run.step(PipelineEvent::Waited { pid: 51, raw_status: 0 }, &mut jobs),
        PipelineAction::Wait { .. }
    ));
    let code = match run.step(PipelineEvent::Waited { pid: 50, raw_status: SIGPIPE }, &mut jobs) {
        PipelineAction::Finished(done) => match done.action {
            ExecutionAction::Continue(code) => code,
            other => panic!("{other:?}"),
        },
        other => panic!("{other:?}"),
    };
    assert_eq!(code, 0);
    assert_eq!(builtin_echo(&expand("ALIVE", &env, code)).stdout, "ALIVE\n");
    assert_eq!(builtin_echo(&expand("STATUS:$?", &env, 0)).stdout, "STATUS:0\n");
}
