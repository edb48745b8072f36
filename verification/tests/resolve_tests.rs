use james_shell::redirect::{RedirectTarget, Redirection};
use james_shell::resolve::{
    resolve_redirections, unsupported_redirection, FileOpen, InputHandle, OpenMode, OutputHandle,
    RedirectionDefaults,
};

fn inherit() -> RedirectionDefaults {
    RedirectionDefaults {
        stdin: InputHandle::Inherit,
        stdout: OutputHandle::Inherit,
        stderr: OutputHandle::Inherit,
    }
}

fn file(fd: i32, path: &str) -> Redirection {
    Redirection { fd, target: RedirectTarget::File(path.to_string()) }
}

fn append(fd: i32, path: &str) -> Redirection {
    Redirection { fd, target: RedirectTarget::FileAppend(path.to_string()) }
}

fn dup(fd: i32, target: i32) -> Redirection {
    Redirection { fd, target: RedirectTarget::Fd(target) }
}

#[test]
fn no_redirection_keeps_the_defaults() {
    let defaults = RedirectionDefaults {
        stdin: InputHandle::Pipe,
        stdout: OutputHandle::Pipe,
        stderr: OutputHandle::Inherit,
    };
    let res = resolve_redirections(&[], defaults).unwrap();
    assert_eq!(res.stdin, InputHandle::Pipe);
    assert_eq!(res.stdout, OutputHandle::Pipe);
    assert_eq!(res.stderr, OutputHandle::Inherit);
    assert!(!res.stdout_redirected);
    assert!(res.opens.is_empty());
}

#[test]
fn stderr_joins_the_file_of_stdout() {
    let res = resolve_redirections(&[file(1, "out.txt"), dup(2, 1)], inherit()).unwrap();
    assert_eq!(res.stdout, OutputHandle::File { entry: 0 });
    assert_eq!(res.stderr, OutputHandle::File { entry: 0 });
    assert_eq!(res.opens, vec![FileOpen { entry: 0, mode: OpenMode::Truncate }]);
    assert!(res.stdout_redirected);
}

#[test]
fn duplication_takes_the_handle_of_the_moment() {
    let res = resolve_redirections(&[dup(2, 1), file(1, "out.txt")], inherit()).unwrap();
    assert_eq!(res.stdout, OutputHandle::File { entry: 1 });
    assert_eq!(res.stderr, OutputHandle::Inherit);

    let defaults = RedirectionDefaults {
        stdin: InputHandle::Inherit,
        stdout: OutputHandle::Pipe,
        stderr: OutputHandle::Inherit,
    };
    let res = resolve_redirections(&[dup(2, 1)], defaults).unwrap();
    assert_eq!(res.stderr, OutputHandle::Pipe);
    assert!(!res.stdout_redirected);

    let res = resolve_redirections(&[append(2, "err.log"), dup(1, 2)], inherit()).unwrap();
    assert_eq!(res.stdout, OutputHandle::File { entry: 0 });
    assert_eq!(res.stderr, OutputHandle::File { entry: 0 });
    assert!(res.stdout_redirected);
    assert_eq!(res.opens, vec![FileOpen { entry: 0, mode: OpenMode::Append }]);
}

#[test]
fn every_file_is_opened_in_order() {
    let list = [
        file(1, "a"),
        append(1, "b"),
        Redirection { fd: 0, target: RedirectTarget::FileRead("in".to_string()) },
        file(2, "/dev/null"),
        dup(1, 1),
        dup(7, 7),
    ];
    let res = resolve_redirections(&list, inherit()).unwrap();
    assert_eq!(res.stdout, OutputHandle::File { entry: 1 });
    assert_eq!(res.stderr, OutputHandle::Null);
    assert_eq!(res.stdin, InputHandle::File { entry: 2 });
    assert_eq!(
        res.opens,
        vec![
            FileOpen { entry: 0, mode: OpenMode::Truncate },
            FileOpen { entry: 1, mode: OpenMode::Append },
            FileOpen { entry: 2, mode: OpenMode::Read },
        ]
    );
}

#[test]
fn here_string_feeds_stdin() {
    let list = [
        Redirection { fd: 0, target: RedirectTarget::FileRead("/dev/null".to_string()) },
        Redirection { fd: 0, target: RedirectTarget::HereString("text".to_string()) },
    ];
    let res = resolve_redirections(&list, inherit()).unwrap();
    assert_eq!(res.stdin, InputHandle::HereString { entry: 1 });
    assert_eq!(res.opens, vec![FileOpen { entry: 0, mode: OpenMode::Read }]);
}

#[test]
fn unsupported_combinations_fail_with_a_message() {
    let err = resolve_redirections(&[file(1, "ok"), file(5, "x\"y")], inherit()).unwrap_err();
    assert_eq!(err, "jsh: unsupported redirection: fd 5 -> File(\"x\\\"y\")");
    let err = resolve_redirections(&[dup(1, 3)], inherit()).unwrap_err();
    assert_eq!(err, "jsh: unsupported redirection: fd 1 -> Fd(3)");
    let err = resolve_redirections(&[append(0, "a")], inherit()).unwrap_err();
    assert_eq!(err, "jsh: unsupported redirection: fd 0 -> FileAppend(\"a\")");
    let read = Redirection { fd: 1, target: RedirectTarget::FileRead("in".to_string()) };
    assert_eq!(
        unsupported_redirection(&read),
        "jsh: unsupported redirection: fd 1 -> FileRead(\"in\")"
    );
    let here = Redirection { fd: -2, target: RedirectTarget::HereString("t".to_string()) };
    assert_eq!(
        resolve_redirections(&[here], inherit()).unwrap_err(),
        "jsh: unsupported redirection: fd -2 -> HereString(\"t\")"
    );
}

#[test]
fn resolving_twice_is_resolving_once_where_settled() {
    let list = [file(1, "out"), dup(2, 1)];
    let once = resolve_redirections(&list, inherit()).unwrap();
    let again = resolve_redirections(
        &list,
        RedirectionDefaults { stdin: once.stdin, stdout: once.stdout, stderr: once.stderr },
    )
    .unwrap();
    assert_eq!((again.stdin, again.stdout, again.stderr), (once.stdin, once.stdout, once.stderr));

    let list = [dup(2, 1), file(1, "out")];
    let once = resolve_redirections(&list, inherit()).unwrap();
    let again = resolve_redirections(
        &list,
        RedirectionDefaults { stdin: once.stdin, stdout: once.stdout, stderr: once.stderr },
    )
    .unwrap();
    assert_eq!(once.stderr, OutputHandle::Inherit);
    assert_eq!(again.stderr, OutputHandle::File { entry: 1 });
}
