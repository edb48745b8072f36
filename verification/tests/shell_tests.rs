use james_shell::ast::Connector;
use james_shell::env::Environment;
use james_shell::executor::ExecutionAction;
use james_shell::parser::{tokenize, words_to_strings};
use james_shell::redirect::RedirectTarget;
use james_shell::shell::{
    build_commands, command_text, parse_line, runs_in_background_shell, should_run,
    strip_background, ChainRun, ChainStep,
};
use james_shell::text::{
    chars_eq, decimal_string, parse_i32, parse_usize, signed_decimal_string, trim_chars,
};

fn chars_of(s: &str) -> Vec<char> {
    s.chars().collect()
}

fn string_of(v: &Vec<char>) -> String {
    v.iter().collect()
}

fn env() -> Environment {
    let mut env = Environment::new(77);
    env.set("NAME".to_string(), "value".to_string());
    env
}

#[test]
fn connectors_gate_on_the_exit_code() {
    assert!(should_run(Connector::Sequence, 0));
    assert!(should_run(Connector::Sequence, 1));
    assert!(should_run(Connector::And, 0));
    assert!(!should_run(Connector::And, 2));
    assert!(!should_run(Connector::Or, 0));
    assert!(should_run(Connector::Or, -1));
}

#[test]
fn trailing_ampersand_is_stripped() {
    let (words, background) = strip_background(tokenize("sleep 1 &").unwrap());
    assert!(background);
    assert_eq!(words_to_strings(&words), vec!["sleep", "1"]);
    let (words, background) = strip_background(tokenize("echo '&'").unwrap());
    assert!(!background);
    assert_eq!(words.len(), 2);
    let (words, background) = strip_background(vec![]);
    assert!(!background && words.is_empty());
    assert_eq!(command_text("sleep 1 & "), "sleep 1");
    assert_eq!(command_text("a && b &&& "), "a && b");
    assert_eq!(command_text("plain"), "plain");
    assert_eq!(command_text("& &"), "");
}

#[test]
fn a_line_is_checked_as_a_whole() {
    let parsed = parse_line("  false && echo skipped | cat || echo ran &  ").unwrap().unwrap();
    assert!(parsed.background);
    assert_eq!(parsed.command_text, "false && echo skipped | cat || echo ran");
    assert_eq!(parsed.entries.len(), 3);
    assert_eq!(parsed.entries[0].connector, Connector::Sequence);
    assert_eq!(parsed.entries[1].connector, Connector::And);
    assert_eq!(parsed.entries[2].connector, Connector::Or);
    assert_eq!(parsed.entries[1].pipeline.len(), 2);
    assert!(runs_in_background_shell(&parsed));

    assert!(parse_line("   ").unwrap().is_none());
    assert_eq!(
        parse_line("true || echo 'open").unwrap_err(),
        "jsh: syntax error: unterminated single quote"
    );
    assert_eq!(
        parse_line("true || | cat").unwrap_err(),
        "jsh: syntax error: missing command before '|'"
    );
    assert_eq!(
        parse_line("true ; echo a |").unwrap_err(),
        "jsh: syntax error: expected command after '|'"
    );
    assert_eq!(
        parse_line("echo a ; ;").unwrap_err(),
        "jsh: syntax error near unexpected token `;'"
    );
    let single = parse_line("sleep 3 &").unwrap().unwrap();
    assert!(single.background && !runs_in_background_shell(&single));
}

#[test]
fn commands_are_built_from_words() {
    let parsed = parse_line("echo $NAME \"$?\" > out.txt 2>&1 | wc -l").unwrap().unwrap();
    let commands = build_commands(&parsed.entries[0].pipeline, 3, &env()).unwrap();
    assert_eq!(commands.len(), 2);
    assert_eq!(commands[0].command.program, "echo");
    assert_eq!(commands[0].command.args, vec!["value", "3"]);
    assert_eq!(commands[0].redirections.len(), 2);
    assert!(matches!(&commands[0].redirections[0].target, RedirectTarget::File(p) if p == "out.txt"));
    assert_eq!(commands[1].command.program, "wc");
    assert_eq!(commands[1].command.args, vec!["-l"]);

    let parsed = parse_line("> out.txt").unwrap().unwrap();
    assert_eq!(
        build_commands(&parsed.entries[0].pipeline, 0, &env()).unwrap_err(),
        "jsh: syntax error: empty command"
    );
    let parsed = parse_line("echo >").unwrap().unwrap();
    assert_eq!(
        build_commands(&parsed.entries[0].pipeline, 0, &env()).unwrap_err(),
        "jsh: syntax error: expected filename after redirection target"
    );
}

#[test]
fn chain_short_circuits() {
    // false && echo skipped || echo ran
    let parsed = parse_line("false && echo skipped || echo ran").unwrap().unwrap();
    let mut run = ChainRun::new(parsed, 0);
    let env = env();
    match run.next(&env) {
        ChainStep::Run { commands, background } => {
            assert_eq!(commands[0].command.program, "false");
            assert!(!background);
        }
        other => panic!("{other:?}"),
    }
    assert_eq!(run.completed(ExecutionAction::Continue(1)), None);
    match run.next(&env) {
        ChainStep::Run { commands, .. } => assert_eq!(commands[0].command.args, vec!["ran"]),
        other => panic!("{other:?}"),
    }
    assert_eq!(run.completed(ExecutionAction::Continue(0)), None);
    assert!(matches!(run.next(&env), ChainStep::Finished));
    assert_eq!(run.last_exit_code(), 0);
}

#[test]
fn chain_stops_on_exit_and_on_errors() {
    let env = env();
    let parsed = parse_line("exit 4 ; echo never").unwrap().unwrap();
    let mut run = ChainRun::new(parsed, 0);
    assert!(matches!(run.next(&env), ChainStep::Run { .. }));
    assert_eq!(run.completed(ExecutionAction::Exit(4)), Some(4));
    assert!(matches!(run.next(&env), ChainStep::Finished));
    assert_eq!(run.last_exit_code(), 4);

    let parsed = parse_line("true && echo > ; echo never").unwrap().unwrap();
    let mut run = ChainRun::new(parsed, 0);
    assert!(matches!(run.next(&env), ChainStep::Run { .. }));
    run.completed(ExecutionAction::Continue(0));
    match run.next(&env) {
        ChainStep::Failed { message } => {
            assert_eq!(message, "jsh: syntax error: expected filename after redirection target")
        }
        other => panic!("{other:?}"),
    }
    assert_eq!(run.last_exit_code(), 2);
    assert!(matches!(run.next(&env), ChainStep::Finished));

    let parsed = parse_line("sleep 5 &").unwrap().unwrap();
    let mut run = ChainRun::new(parsed, 1);
    assert!(matches!(run.next(&env), ChainStep::Run { background: true, .. }));

    let parsed = parse_line("true || a || b").unwrap().unwrap();
    let mut run = ChainRun::new(parsed, 9);
    assert!(matches!(run.next(&env), ChainStep::Run { .. }));
    run.completed(ExecutionAction::Continue(0));
    assert!(matches!(run.next(&env), ChainStep::Finished));
}

#[test]
fn text_helpers() {
    assert!(chars_eq(&vec!['a'], &vec!['a']) && !chars_eq(&vec!['a'], &vec!['a', 'b']));
    assert_eq!(decimal_string(0), "0");
    assert_eq!(decimal_string(18446744073709551615), "18446744073709551615");
    assert_eq!(signed_decimal_string(-9223372036854775808), "-9223372036854775808");
    assert_eq!(signed_decimal_string(-42), "-42");
    assert_eq!(parse_i32("0042"), Some(42));
    assert_eq!(parse_i32("-0"), Some(0));
    assert_eq!(parse_i32("٣"), None);
    assert_eq!(parse_usize(&chars_of("18446744073709551615")), Some(18446744073709551615));
    assert_eq!(parse_usize(&chars_of("18446744073709551616")), None);
    assert_eq!(parse_usize(&chars_of("")), None);
    assert_eq!(string_of(&trim_chars(&chars_of(" \t a b \n"))), "a b");
    assert_eq!(string_of(&trim_chars(&chars_of("\u{2003}x\u{85}"))), "x");
    assert_eq!(string_of(&trim_chars(&chars_of("  "))), "");
}

#[test]
fn environment_sets_and_unsets() {
    let mut env = Environment::new(9);
    assert_eq!(env.get("A"), None);
    env.set("A".to_string(), "1".to_string());
    env.set("B".to_string(), "2".to_string());
    env.set("A".to_string(), "3".to_string());
    assert_eq!(env.get("A"), Some(&"3".to_string()));
    assert_eq!(env.pairs(), &vec![("A".to_string(), "3".to_string()), ("B".to_string(), "2".to_string())]);
    env.unset("A");
    env.unset("A");
    assert_eq!(env.get("A"), None);
    assert_eq!(env.get("B"), Some(&"2".to_string()));
    assert_eq!(env.pid(), 9);
}
