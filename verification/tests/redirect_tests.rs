use james_shell::env::Environment;
use james_shell::expander::expand_words;
use james_shell::parser::{tokenize, WordSegment};
use james_shell::redirect::{
    extract_redirections, extract_redirections_from_words, is_null_device, RedirectTarget,
};

fn plain_env() -> Environment {
    let mut env = Environment::new(4242);
    env.set("HOME".to_string(), "/home/user".to_string());
    env.set("OUT".to_string(), "out.log".to_string());
    env.set("TWO".to_string(), "a b".to_string());
    env
}

#[test]
fn simple_stdout_redirect() {
    let (args, redirs) = extract_redirections(
        ["echo", "hello", ">", "out.txt"].map(String::from).as_ref(),
    )
    .unwrap();
    assert_eq!(args, vec!["echo", "hello"]);
    assert_eq!(redirs.len(), 1);
    assert_eq!(redirs[0].fd, 1);
    assert!(matches!(&redirs[0].target, RedirectTarget::File(p) if p == "out.txt"));
}

#[test]
fn append_redirect() {
    let (args, redirs) = extract_redirections(
        ["echo", "hello", ">>", "out.txt"].map(String::from).as_ref(),
    )
    .unwrap();
    assert_eq!(args, vec!["echo", "hello"]);
    assert_eq!(redirs.len(), 1);
    assert!(matches!(
        &redirs[0].target,
        RedirectTarget::FileAppend(p) if p == "out.txt"
    ));
}

#[test]
fn stdin_redirect() {
    let (args, redirs) = extract_redirections(
        ["sort", "<", "data.txt"].map(String::from).as_ref(),
    )
    .unwrap();
    assert_eq!(args, vec!["sort"]);
    assert!(matches!(&redirs[0].target, RedirectTarget::FileRead(p) if p == "data.txt"));
    assert_eq!(redirs[0].fd, 0);
}

#[test]
fn stderr_redirect() {
    let (args, redirs) = extract_redirections(
        ["ls", "/bad", "2>", "err.txt"].map(String::from).as_ref(),
    )
    .unwrap();
    assert_eq!(args, vec!["ls", "/bad"]);
    assert_eq!(redirs[0].fd, 2);
    assert!(matches!(
        &redirs[0].target,
        RedirectTarget::File(p) if p == "err.txt"
    ));
}

#[test]
fn stderr_to_stdout() {
    let (args, redirs) = extract_redirections(["ls", "2>&1"].map(String::from).as_ref()).unwrap();
    assert_eq!(args, vec!["ls"]);
    assert_eq!(redirs[0].fd, 2);
    assert!(matches!(&redirs[0].target, RedirectTarget::Fd(1)));
}

#[test]
fn here_string() {
    let (args, redirs) = extract_redirections(
        ["cat", "<<<", "hello world"].map(String::from).as_ref(),
    )
    .unwrap();
    assert_eq!(args, vec!["cat"]);
    assert!(matches!(&redirs[0].target, RedirectTarget::HereString(s) if s == "hello world"));
}

#[test]
fn missing_filename_is_error() {
    let result = extract_redirections(["echo", ">"].map(String::from).as_ref());
    assert!(result.is_err());
}

#[test]
fn multiple_redirections() {
    let (args, redirs) = extract_redirections(
        ["cmd", ">", "out.txt", "2>", "err.txt", "<", "in.txt"]
            .map(String::from)
            .as_ref(),
    )
    .unwrap();
    assert_eq!(args, vec!["cmd"]);
    assert_eq!(redirs.len(), 3);
}

#[test]
fn spaced_stderr_redirect() {
    let parsed = tokenize("printf hi 2 > err.txt").unwrap();
    let (args, redirs) =
        extract_redirections_from_words(&parsed, 0, &plain_env()).expect("parse");
    assert_eq!(args.len(), 2);
    assert_eq!(args[0], vec![WordSegment::Unquoted("printf".into())]);
    assert_eq!(args[1], vec![WordSegment::Unquoted("hi".into())]);
    assert_eq!(redirs[0].fd, 2);
    assert!(matches!(&redirs[0].target, RedirectTarget::File(p) if p == "err.txt"));
}

#[test]
fn spaced_stderr_append_redirect() {
    let parsed = tokenize("printf hi 2 >> err.txt").unwrap();
    let (args, redirs) =
        extract_redirections_from_words(&parsed, 0, &plain_env()).expect("parse");
    assert_eq!(args.len(), 2);
    assert_eq!(args[0], vec![WordSegment::Unquoted("printf".into())]);
    assert_eq!(args[1], vec![WordSegment::Unquoted("hi".into())]);
    assert_eq!(redirs[0].fd, 2);
    assert!(matches!(
        &redirs[0].target,
        RedirectTarget::FileAppend(p) if p == "err.txt"
    ));
}

#[test]
fn spaced_fd_dup_redirect() {
    let parsed = tokenize("cmd 2 >&1").unwrap();
    let (args, redirs) =
        extract_redirections_from_words(&parsed, 0, &plain_env()).expect("parse");
    assert_eq!(args.len(), 1);
    assert_eq!(args[0], vec![WordSegment::Unquoted("cmd".into())]);
    assert_eq!(redirs[0].fd, 2);
    assert!(matches!(&redirs[0].target, RedirectTarget::Fd(1)));
}

#[test]
fn null_device_detection() {
    assert!(is_null_device("/dev/null"));
    assert!(!is_null_device("/dev/nul"));
    assert!(!is_null_device("NUL"));
}

#[test]
fn escaped_redirect_is_literal() {
    let parsed = tokenize(r"echo \> out.txt").unwrap();
    let env = plain_env();
    let (args, redirs) =
        extract_redirections_from_words(&parsed, 0, &env).expect("parse");
    let args = expand_words(&args, 0, &env);
    assert!(redirs.is_empty());
    assert_eq!(args, vec!["echo".to_string(), ">".to_string(), "out.txt".to_string()]);
}

#[test]
fn missing_filename_message_names_operator() {
    let err = extract_redirections(["echo", "2>>"].map(String::from).as_ref()).unwrap_err();
    assert_eq!(err, "jsh: syntax error: expected filename after '2>>'");
    let err = extract_redirections(["cat", "<<<"].map(String::from).as_ref()).unwrap_err();
    assert_eq!(err, "jsh: syntax error: expected filename after '<<<'");
}

#[test]
fn attached_paths_and_descriptor_forms() {
    let (args, redirs) = extract_redirections(
        ["cmd", "2>err", "1>out", "1>&2", ">&1", ">&2", "1>>", "log", "2>&2"]
            .map(String::from)
            .as_ref(),
    )
    .unwrap();
    assert_eq!(args, vec!["cmd"]);
    assert_eq!(redirs.len(), 7);
    assert!(matches!(&redirs[0].target, RedirectTarget::File(p) if p == "err"));
    assert_eq!(redirs[0].fd, 2);
    assert!(matches!(&redirs[1].target, RedirectTarget::File(p) if p == "out"));
    assert_eq!(redirs[1].fd, 1);
    assert!(matches!(&redirs[2].target, RedirectTarget::Fd(2)));
    assert!(matches!(&redirs[3].target, RedirectTarget::Fd(1)));
    assert_eq!(redirs[3].fd, 1);
    assert!(matches!(&redirs[4].target, RedirectTarget::Fd(2)));
    assert!(matches!(&redirs[5].target, RedirectTarget::FileAppend(p) if p == "log"));
    assert!(matches!(&redirs[6].target, RedirectTarget::File(p) if p == "&2"));
}

#[test]
fn target_is_expanded() {
    let parsed = tokenize("echo hi > $OUT 2>>~/err <<< \"x $OUT\"").unwrap();
    let (args, redirs) =
        extract_redirections_from_words(&parsed, 0, &plain_env()).expect("parse");
    assert_eq!(args.len(), 2);
    assert_eq!(redirs.len(), 3);
    assert!(matches!(&redirs[0].target, RedirectTarget::File(p) if p == "out.log"));
    assert!(matches!(&redirs[1].target, RedirectTarget::FileAppend(p) if p == "/home/user/err"));
    assert_eq!(redirs[1].fd, 2);
    assert!(matches!(&redirs[2].target, RedirectTarget::HereString(p) if p == "x out.log"));
    assert_eq!(redirs[2].fd, 0);
}

#[test]
fn ambiguous_and_missing_targets() {
    let env = plain_env();
    let parsed = tokenize("echo > $TWO").unwrap();
    assert_eq!(
        extract_redirections_from_words(&parsed, 0, &env).unwrap_err(),
        "jsh: ambiguous redirect target"
    );
    let parsed = tokenize("echo >").unwrap();
    assert_eq!(
        extract_redirections_from_words(&parsed, 0, &env).unwrap_err(),
        "jsh: syntax error: expected filename after redirection target"
    );
    let parsed = tokenize("cat <<<").unwrap();
    assert_eq!(
        extract_redirections_from_words(&parsed, 0, &env).unwrap_err(),
        "jsh: syntax error: expected filename after here-string target"
    );
}

#[test]
fn quoted_operator_is_an_argument() {
    let parsed = tokenize("echo '>' \"2>&1\" 2>&1").unwrap();
    let (args, redirs) =
        extract_redirections_from_words(&parsed, 0, &plain_env()).expect("parse");
    assert_eq!(args.len(), 3);
    assert_eq!(redirs.len(), 1);
    assert_eq!(redirs[0].fd, 2);
    assert!(matches!(&redirs[0].target, RedirectTarget::Fd(1)));
}
