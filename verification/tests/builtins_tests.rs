use james_shell::builtins::{
    bg_finish, bg_start, builtin_echo, builtin_exit, builtin_export, builtin_help, builtin_jobs,
    builtin_pwd, builtin_type, builtin_unset, cd_finish, cd_target, execute, fg_finish, fg_start,
    is_builtin, is_stateful_builtin, parse_job_id, path_candidates, resolve_job_id, wait_start,
    BuiltinAction, BuiltinStep, ForegroundReport, WaitAction,
};
use james_shell::env::Environment;
use james_shell::job_control::WaitOutcome;
use james_shell::jobs::{JobStatus, JobTable};

fn strings(items: &[&str]) -> Vec<String> {
    items.iter().map(|s| s.to_string()).collect()
}

#[test]
fn builtin_names() {
    for name in ["cd", "pwd", "exit", "echo", "export", "unset", "type", "jobs", "fg", "bg", "wait", "help"] {
        assert!(is_builtin(name), "{name}");
    }
    assert!(!is_builtin("ls"));
    assert!(!is_builtin(""));
    assert!(!is_builtin("Echo"));
    for name in ["cd", "export", "unset", "fg", "bg"] {
        assert!(is_stateful_builtin(name), "{name}");
    }
    for name in ["pwd", "echo", "exit", "type", "jobs", "wait", "help", "ls"] {
        assert!(!is_stateful_builtin(name), "{name}");
    }
}

#[test]
fn echo_joins_with_single_spaces() {
    let out = builtin_echo(&strings(&["a", "b  c", ""]));
    assert_eq!(out.stdout, "a b  c \n");
    assert_eq!(out.action, BuiltinAction::Continue(0));
    assert_eq!(builtin_echo(&[]).stdout, "\n");
}

#[test]
fn exit_reads_its_code() {
    assert_eq!(builtin_exit(&[]).action, BuiltinAction::Exit(0));
    assert_eq!(builtin_exit(&strings(&["42"])).action, BuiltinAction::Exit(42));
    assert_eq!(builtin_exit(&strings(&["-1", "x"])).action, BuiltinAction::Exit(-1));
    assert_eq!(builtin_exit(&strings(&["+7"])).action, BuiltinAction::Exit(7));
    assert_eq!(builtin_exit(&strings(&["2147483647"])).action, BuiltinAction::Exit(2147483647));
    assert_eq!(builtin_exit(&strings(&["-2147483648"])).action, BuiltinAction::Exit(-2147483648));
    for bad in ["abc", "", "2147483648", "1 ", "-", "+", "1x"] {
        let out = builtin_exit(&strings(&[bad]));
        assert_eq!(out.action, BuiltinAction::Exit(2), "{bad}");
        assert_eq!(out.stderr, format!("exit: {bad}: numeric argument required\n"));
    }
}

#[test]
fn help_shows_overview_topics_and_failure() {
    let out = builtin_help(&[]);
    assert!(out.stdout.contains("cd") && out.stdout.contains("Topics:"));
    assert_eq!(out.action, BuiltinAction::Continue(0));
    let out = builtin_help(&strings(&["cd"]));
    assert!(out.stdout.contains("OLDPWD"));
    let out = builtin_help(&strings(&["redirection"]));
    assert!(out.stdout.contains("2>&1") && out.stdout.contains("<<<"));
    let out = builtin_help(&strings(&["variables"]));
    assert!(out.stdout.contains("  ${VAR}    Same as $VAR (brace form)\n"));
    let out = builtin_help(&strings(&["nonexistent_topic_xyzzy"]));
    assert_eq!(out.action, BuiltinAction::Continue(1));
    assert_eq!(out.stderr, "help: no help for 'nonexistent_topic_xyzzy'\n");
    assert!(out.stdout.is_empty());
}

#[test]
fn export_and_unset_change_the_environment() {
    let mut env = Environment::new(1);
    let out = builtin_export(&strings(&["A=1", "B", "C=x=y", "=v", "A=2"]), &mut env);
    assert_eq!(out.action, BuiltinAction::Continue(0));
    assert_eq!(out.stderr, "export: usage: export VAR=value\n");
    assert_eq!(env.get("A"), Some(&"2".to_string()));
    assert_eq!(env.get("C"), Some(&"x=y".to_string()));
    assert_eq!(env.get(""), Some(&"v".to_string()));
    assert_eq!(env.get("B"), None);
    let out = builtin_unset(&strings(&["A", "NOPE"]), &mut env);
    assert_eq!(out.action, BuiltinAction::Continue(0));
    assert_eq!(env.get("A"), None);
    assert_eq!(env.pairs().len(), 2);
    assert_eq!(env.pid(), 1);
}

#[test]
fn cd_sets_oldpwd_only_on_success() {
    let mut env = Environment::new(1);
    assert_eq!(cd_target(&[], &env).unwrap(), ".");
    assert_eq!(cd_target(&strings(&["-"]), &env).unwrap_err().stderr, "cd: OLDPWD not set\n");
    env.set("USERPROFILE".to_string(), "/u".to_string());
    assert_eq!(cd_target(&[], &env).unwrap(), "/u");
    env.set("HOME".to_string(), "/h".to_string());
    assert_eq!(cd_target(&[], &env).unwrap(), "/h");
    assert_eq!(cd_target(&strings(&["/tmp", "x"]), &env).unwrap(), "/tmp");

    let out = cd_finish(&mut env, "/tmp", Some("/start".to_string()), None);
    assert_eq!(out.action, BuiltinAction::Continue(0));
    assert_eq!(env.get("OLDPWD"), Some(&"/start".to_string()));
    assert_eq!(cd_target(&strings(&["-"]), &env).unwrap(), "/start");

    let out = cd_finish(
        &mut env,
        "/missing",
        Some("/tmp".to_string()),
        Some("No such file or directory".to_string()),
    );
    assert_eq!(out.action, BuiltinAction::Continue(1));
    assert_eq!(out.stderr, "cd: /missing: No such file or directory\n");
    assert_eq!(env.get("OLDPWD"), Some(&"/start".to_string()));

    let out = cd_finish(&mut env, "/x", None, None);
    assert_eq!(out.action, BuiltinAction::Continue(0));
    assert_eq!(env.get("OLDPWD"), Some(&"/start".to_string()));
}

#[test]
fn pwd_prints_or_fails() {
    let out = builtin_pwd(Ok("/home/me".to_string()));
    assert_eq!((out.stdout.as_str(), out.action), ("/home/me\n", BuiltinAction::Continue(0)));
    let out = builtin_pwd(Err("gone".to_string()));
    assert_eq!((out.stderr.as_str(), out.action), ("pwd: gone\n", BuiltinAction::Continue(1)));
}

#[test]
fn type_reports_each_name() {
    let out = builtin_type(
        &strings(&["echo", "ls", "nope", "cd"]),
        &[None, Some("/bin/ls".to_string()), None],
    );
    assert_eq!(out.stdout, "echo is a shell builtin\nls is /bin/ls\ncd is a shell builtin\n");
    assert_eq!(out.stderr, "nope: not found\n");
    assert_eq!(out.action, BuiltinAction::Continue(1));
    let out = builtin_type(&strings(&["ls"]), &[Some("/bin/ls".to_string())]);
    assert_eq!(out.action, BuiltinAction::Continue(0));
    let out = builtin_type(&strings(&["ls"]), &[]);
    assert_eq!(out.action, BuiltinAction::Continue(1));
}

#[test]
fn search_path_gives_the_places_in_order() {
    assert_eq!(
        path_candidates("/usr/bin:/bin/::rel", "ls"),
        strings(&["/usr/bin/ls", "/bin/ls", "ls", "rel/ls"])
    );
    assert_eq!(path_candidates("", "ls"), strings(&["ls"]));
    assert_eq!(path_candidates("/a:/b", "/abs/ls"), strings(&["/abs/ls", "/abs/ls"]));
}

#[test]
fn jobs_reaps_then_lists() {
    let mut jobs = JobTable::new();
    jobs.add(10, "sleep 1".to_string());
    jobs.add_stopped(11, "vim".to_string());
    jobs.add(12, "make".to_string());
    let (notices, out) = builtin_jobs(&mut jobs, &[1]);
    assert_eq!(notices, strings(&["[1]  Done  sleep 1"]));
    assert_eq!(out.stdout, "[2]  Stopped    vim\n[3]  Running    make\n");
    assert_eq!(out.action, BuiltinAction::Continue(0));
}

#[test]
fn job_ids_are_read_with_or_without_percent() {
    assert_eq!(parse_job_id("3"), Some(3));
    assert_eq!(parse_job_id("%12"), Some(12));
    assert_eq!(parse_job_id("%%7"), Some(7));
    assert_eq!(parse_job_id("+4"), Some(4));
    assert_eq!(parse_job_id("%"), None);
    assert_eq!(parse_job_id("-1"), None);
    assert_eq!(parse_job_id("1%"), None);
    assert_eq!(parse_job_id("99999999999999999999999"), None);
    assert_eq!(resolve_job_id(&strings(&["%2"]), Some(9)), Ok(2));
    assert_eq!(resolve_job_id(&[], Some(9)), Ok(9));
    assert_eq!(resolve_job_id(&[], None), Err("no current job\n".to_string()));
    assert_eq!(resolve_job_id(&strings(&["x"]), Some(1)), Err("invalid job id: x\n".to_string()));
}

#[test]
fn fg_waits_and_updates_the_table() {
    let mut jobs = JobTable::new();
    jobs.add_stopped_with_pgid(50, "vim notes".to_string(), 49);
    jobs.add(60, "sleep 9".to_string());

    assert_eq!(fg_start(&strings(&["%7"]), &mut jobs).unwrap_err().stderr, "fg: 7: no such job\n");
    assert_eq!(fg_start(&strings(&["x"]), &mut jobs).unwrap_err().stderr, "invalid job id: x\n");

    let request = fg_start(&strings(&["1"]), &mut jobs).unwrap();
    assert_eq!((request.job_id, request.pid, request.pgid), (1, 50, 49));
    assert_eq!(request.command, "vim notes");
    assert_eq!(jobs.get(1).unwrap().status, JobStatus::Running);

    let out = fg_finish(
        &mut jobs,
        &request,
        ForegroundReport {
            terminal_error: Some("ENOTTY".to_string()),
            resume_error: None,
            wait: Ok(WaitOutcome::Stopped),
        },
    );
    assert_eq!(out.action, BuiltinAction::Continue(0));
    assert_eq!(out.stdout, "[1]  Stopped  vim notes\n");
    assert_eq!(out.stderr, "fg: failed to move terminal to job 1: ENOTTY\n");
    assert_eq!(jobs.get(1).unwrap().status, JobStatus::Stopped);

    let request = fg_start(&[], &mut jobs).unwrap();
    assert_eq!(request.job_id, 2);
    let out = fg_finish(
        &mut jobs,
        &request,
        ForegroundReport {
            terminal_error: None,
            resume_error: Some("EPERM".to_string()),
            wait: Ok(WaitOutcome::Exited(130)),
        },
    );
    assert_eq!(out.action, BuiltinAction::Continue(130));
    assert_eq!(out.stderr, "fg: failed to resume job 2: EPERM\n");
    assert!(jobs.get(2).is_none());

    let request = fg_start(&[], &mut jobs).unwrap();
    let out = fg_finish(
        &mut jobs,
        &request,
        ForegroundReport { terminal_error: None, resume_error: None, wait: Err("ECHILD".to_string()) },
    );
    assert_eq!(out.action, BuiltinAction::Continue(1));
    assert_eq!(out.stderr, "fg: error waiting for job 1: ECHILD\n");
    assert!(jobs.get(1).is_some());

    let mut empty = JobTable::new();
    assert_eq!(fg_start(&[], &mut empty).unwrap_err().stderr, "no current job\n");
}

#[test]
fn bg_resumes_a_stopped_job() {
    let mut jobs = JobTable::new();
    jobs.add_stopped_with_pgid(50, "vim".to_string(), 49);
    jobs.add(60, "sleep 9".to_string());
    assert_eq!(bg_start(&strings(&["2"]), &jobs).unwrap_err().stderr, "bg: job 2 is not stopped\n");
    assert_eq!(bg_start(&strings(&["5"]), &jobs).unwrap_err().stderr, "bg: 5: no such job\n");
    let request = bg_start(&[], &jobs).unwrap();
    assert_eq!((request.job_id, request.pgid), (1, 49));
    let out = bg_finish(&mut jobs, &request, Some("ESRCH".to_string()));
    assert_eq!(out.action, BuiltinAction::Continue(1));
    assert_eq!(out.stderr, "bg: failed to resume job 1: ESRCH\n");
    assert_eq!(jobs.get(1).unwrap().status, JobStatus::Stopped);
    let out = bg_finish(&mut jobs, &request, None);
    assert_eq!(out.action, BuiltinAction::Continue(0));
    assert_eq!(out.stdout, "[1]  vim &\n");
    assert_eq!(jobs.get(1).unwrap().status, JobStatus::Running);
    assert_eq!(bg_start(&[], &jobs).unwrap_err().stderr, "no current job\n");
}

#[test]
fn wait_returns_the_last_exit_code() {
    let mut jobs = JobTable::new();
    jobs.add(10, "sh -c 'exit 7'".to_string());
    jobs.add_stopped(11, "vim".to_string());
    jobs.add(12, "true".to_string());

    let mut run = wait_start(&[], &jobs);
    assert!(matches!(run.advance(&jobs), WaitAction::Wait { job_id: 1, pid: 10 }));
    run.waited(&mut jobs, Ok(0));
    assert!(matches!(run.advance(&jobs), WaitAction::Wait { job_id: 3, pid: 12 }));
    run.waited(&mut jobs, Ok(7));
    match run.advance(&jobs) {
        WaitAction::Done(out) => {
            assert_eq!(out.action, BuiltinAction::Continue(7));
            assert_eq!(out.stdout, "[1]  Done  sh -c 'exit 7'\n[3]  Done  true\n");
            assert!(out.stderr.is_empty());
        }
        other => panic!("{other:?}"),
    }
    assert!(jobs.get(1).is_none() && jobs.get(3).is_none() && jobs.get(2).is_some());
}

#[test]
fn wait_with_arguments_notes_errors() {
    let mut jobs = JobTable::new();
    jobs.add(10, "a".to_string());
    jobs.add_stopped(11, "b".to_string());
    let mut run = wait_start(&strings(&["x", "%2", "9", "%1"]), &jobs);
    assert!(matches!(run.advance(&jobs), WaitAction::Wait { job_id: 1, pid: 10 }));
    run.waited(&mut jobs, Err("EINTR".to_string()));
    match run.advance(&jobs) {
        WaitAction::Done(out) => {
            assert_eq!(out.action, BuiltinAction::Continue(1));
            assert_eq!(
                out.stderr,
                "wait: invalid job id: x\nwait: 9: no such job\nwait: error: EINTR\n"
            );
        }
        other => panic!("{other:?}"),
    }
    assert!(jobs.get(1).is_some());

    let mut run = wait_start(&strings(&["%2"]), &jobs);
    match run.advance(&jobs) {
        WaitAction::Done(out) => assert_eq!(out.action, BuiltinAction::Continue(0)),
        other => panic!("{other:?}"),
    }
}

#[test]
fn dispatch_runs_or_asks() {
    let mut env = Environment::new(5);
    let mut jobs = JobTable::new();
    jobs.add(10, "a".to_string());
    match execute("echo", &strings(&["hi"]), &mut env, &mut jobs) {
        BuiltinStep::Done(out) => assert_eq!(out.stdout, "hi\n"),
        other => panic!("{other:?}"),
    }
    match execute("export", &strings(&["K=v"]), &mut env, &mut jobs) {
        BuiltinStep::Done(out) => assert_eq!(out.action, BuiltinAction::Continue(0)),
        other => panic!("{other:?}"),
    }
    assert_eq!(env.get("K"), Some(&"v".to_string()));
    assert!(matches!(
        execute("cd", &strings(&["/tmp"]), &mut env, &mut jobs),
        BuiltinStep::ChangeDir { target } if target == "/tmp"
    ));
    assert!(matches!(execute("cd", &strings(&["-"]), &mut env, &mut jobs), BuiltinStep::Done(_)));
    assert!(matches!(execute("pwd", &[], &mut env, &mut jobs), BuiltinStep::CurrentDir));
    assert!(matches!(execute("type", &[], &mut env, &mut jobs), BuiltinStep::FindPrograms));
    assert!(matches!(
        execute("jobs", &[], &mut env, &mut jobs),
        BuiltinStep::PollJobs { ids } if ids == vec![1]
    ));
    assert!(matches!(execute("fg", &[], &mut env, &mut jobs), BuiltinStep::Foreground(_)));
    assert!(matches!(execute("bg", &[], &mut env, &mut jobs), BuiltinStep::Done(_)));
    assert!(matches!(execute("wait", &[], &mut env, &mut jobs), BuiltinStep::Wait(_)));
    assert!(matches!(execute("exit", &[], &mut env, &mut jobs), BuiltinStep::Done(out) if out.action == BuiltinAction::Exit(0)));
    assert!(matches!(execute("help", &[], &mut env, &mut jobs), BuiltinStep::Done(_)));
    match execute("ls", &[], &mut env, &mut jobs) {
        BuiltinStep::Done(out) => {
            assert_eq!(out.stderr, "jsh: unknown builtin: ls\n");
            assert_eq!(out.action, BuiltinAction::Continue(1));
        }
        other => panic!("{other:?}"),
    }
}
