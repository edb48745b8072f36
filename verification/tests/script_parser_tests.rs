use james_shell::ast::{ChainEntry, Connector};
use james_shell::parser::{tokenize, WordSegment};
use james_shell::script_parser::{chain_op, connector_display, parse_chain};

fn tokenize_chain(input: &str) -> Vec<ChainEntry> {
    let words = tokenize(input).expect("tokenize failed");
    parse_chain(words).expect("parse_chain failed")
}

fn entry_strings(entry: &ChainEntry) -> Vec<String> {
    entry
        .words
        .iter()
        .map(|word| {
            word.iter()
                .map(|seg| match seg {
                    WordSegment::Unquoted(s)
                    | WordSegment::DoubleQuoted(s)
                    | WordSegment::SingleQuoted(s) => s.as_str(),
                })
                .collect::<String>()
        })
        .collect()
}

#[test]
fn single_command_no_chain() {
    let entries = tokenize_chain("echo hello");
    assert_eq!(entries.len(), 1);
    assert_eq!(entries[0].connector, Connector::Sequence);
    assert_eq!(entry_strings(&entries[0]), vec!["echo", "hello"]);
}

#[test]
fn and_chain() {
    let entries = tokenize_chain("echo hi && echo bye");
    assert_eq!(entries.len(), 2);
    assert_eq!(entries[0].connector, Connector::Sequence);
    assert_eq!(entry_strings(&entries[0]), vec!["echo", "hi"]);
    assert_eq!(entries[1].connector, Connector::And);
    assert_eq!(entry_strings(&entries[1]), vec!["echo", "bye"]);
}

#[test]
fn or_chain() {
    let entries = tokenize_chain("false || echo fallback");
    assert_eq!(entries.len(), 2);
    assert_eq!(entries[0].connector, Connector::Sequence);
    assert_eq!(entries[1].connector, Connector::Or);
    assert_eq!(entry_strings(&entries[1]), vec!["echo", "fallback"]);
}

#[test]
fn semicolon_chain() {
    let entries = tokenize_chain("echo a ; echo b");
    assert_eq!(entries.len(), 2);
    assert_eq!(entries[1].connector, Connector::Sequence);
}

#[test]
fn multi_step_chain() {
    let entries = tokenize_chain("false && echo skipped || echo ran");
    assert_eq!(entries.len(), 3);
    assert_eq!(entries[0].connector, Connector::Sequence);
    assert_eq!(entries[1].connector, Connector::And);
    assert_eq!(entries[2].connector, Connector::Or);
}

#[test]
fn pipe_inside_chain_segment() {
    let entries = tokenize_chain("ls | wc && echo done");
    assert_eq!(entries.len(), 2);
    let first_words = entry_strings(&entries[0]);
    assert_eq!(first_words, vec!["ls", "|", "wc"]);
}

#[test]
fn leading_operator_is_error() {
    let words = tokenize("&& echo hi").unwrap();
    assert!(parse_chain(words).is_err());
}

#[test]
fn trailing_operator_is_error() {
    let words = tokenize("echo hi &&").unwrap();
    assert!(parse_chain(words).is_err());
}

#[test]
fn empty_input_returns_empty() {
    let entries = parse_chain(vec![]).unwrap();
    assert!(entries.is_empty());
}

#[test]
fn chain_error_messages_name_the_operator() {
    let words = tokenize("&& echo hi").unwrap();
    assert_eq!(
        parse_chain(words).unwrap_err(),
        "jsh: syntax error near unexpected token `&&'"
    );
    let words = tokenize("echo hi ; ; echo").unwrap();
    assert_eq!(
        parse_chain(words).unwrap_err(),
        "jsh: syntax error near unexpected token `;'"
    );
    let words = tokenize("echo hi ||").unwrap();
    assert_eq!(
        parse_chain(words).unwrap_err(),
        "jsh: syntax error: expected command after `||'"
    );
}

#[test]
fn single_token_operators_are_connectors() {
    let and = vec![WordSegment::Unquoted("&&".to_string())];
    let or = vec![WordSegment::Unquoted("||".to_string())];
    let seq = vec![WordSegment::Unquoted(";".to_string())];
    let quoted = vec![WordSegment::SingleQuoted("&&".to_string())];
    assert_eq!(chain_op(&and), Some(Connector::And));
    assert_eq!(chain_op(&or), Some(Connector::Or));
    assert_eq!(chain_op(&seq), Some(Connector::Sequence));
    assert_eq!(chain_op(&quoted), None);
    assert_eq!(connector_display(&Connector::And), "&&");
    assert_eq!(connector_display(&Connector::Or), "||");
    assert_eq!(connector_display(&Connector::Sequence), ";");
}

#[test]
fn lone_pipe_stays_in_the_entry() {
    let entries = tokenize_chain("a | b || c | d");
    assert_eq!(entries.len(), 2);
    assert_eq!(entry_strings(&entries[0]), vec!["a", "|", "b"]);
    assert_eq!(entry_strings(&entries[1]), vec!["c", "|", "d"]);
    assert_eq!(entries[1].connector, Connector::Or);
}
