use james_shell::parser::{parse, parse_words, split_pipeline, tokenize, words_to_strings, is_background_word, WordSegment};

#[test]
fn simple_command() {
    let cmd = parse("echo hello world").unwrap();
    assert_eq!(cmd.program, "echo");
    assert_eq!(cmd.args, vec!["hello", "world"]);
}

#[test]
fn double_quotes_preserve_spaces() {
    let cmd = parse(r#"echo "hello   world""#).unwrap();
    assert_eq!(cmd.program, "echo");
    assert_eq!(cmd.args, vec!["hello   world"]);
}

#[test]
fn single_quotes_preserve_spaces() {
    let cmd = parse("echo 'hello   world'").unwrap();
    assert_eq!(cmd.program, "echo");
    assert_eq!(cmd.args, vec!["hello   world"]);
}

#[test]
fn backslash_escapes_space() {
    let cmd = parse(r"echo hello\ world").unwrap();
    assert_eq!(cmd.program, "echo");
    assert_eq!(cmd.args, vec!["hello world"]);
}

#[test]
fn mixed_quoting() {
    let cmd = parse(r#"echo "hello   world" foo\ bar 'single quotes'"#).unwrap();
    assert_eq!(cmd.program, "echo");
    assert_eq!(cmd.args, vec!["hello   world", "foo bar", "single quotes"]);
}

#[test]
fn empty_input_returns_none() {
    assert!(parse("").is_none());
    assert!(parse("   ").is_none());
}

#[test]
fn single_command_no_args() {
    let cmd = parse("ls").unwrap();
    assert_eq!(cmd.program, "ls");
    assert!(cmd.args.is_empty());
}

#[test]
fn quotes_mid_word() {
    let strings = words_to_strings(&tokenize(r#"he"llo wor"ld"#).unwrap());
    assert_eq!(strings, vec!["hello world"]);
}

#[test]
fn backslash_in_double_quotes() {
    let strings = words_to_strings(&tokenize(r#""hello\\world""#).unwrap());
    assert_eq!(strings, vec![r"hello\world"]);

    let strings = words_to_strings(&tokenize(r#""hello\"world""#).unwrap());
    assert_eq!(strings, vec![r#"hello"world"#]);
}

#[test]
fn single_quotes_no_escaping() {
    let strings = words_to_strings(&tokenize(r"'hello\nworld'").unwrap());
    assert_eq!(strings, vec![r"hello\nworld"]);
}

#[test]
fn empty_double_quoted_arg() {
    let cmd = parse(r#"echo """#).unwrap();
    assert_eq!(cmd.program, "echo");
    assert_eq!(cmd.args, vec![""]);
}

#[test]
fn empty_single_quoted_arg() {
    let cmd = parse("echo ''").unwrap();
    assert_eq!(cmd.program, "echo");
    assert_eq!(cmd.args, vec![""]);
}

#[test]
fn multiple_empty_quoted_args() {
    let cmd = parse(r#"cmd "" '' """#).unwrap();
    assert_eq!(cmd.program, "cmd");
    assert_eq!(cmd.args, vec!["", "", ""]);
}

#[test]
fn trailing_backslash_in_word() {
    let strings = words_to_strings(&tokenize(r"foo\").unwrap());
    assert_eq!(strings, vec![r"foo\"]);
}

#[test]
fn trailing_backslash_standalone() {
    let strings = words_to_strings(&tokenize(r"\").unwrap());
    assert_eq!(strings, vec![r"\"]);
}

#[test]
fn quote_context_preserved() {
    let words = tokenize(r#"echo "hello" '$HOME'"#).unwrap();
    assert_eq!(words.len(), 3);
    assert_eq!(words[0], vec![WordSegment::Unquoted("echo".into())]);
    assert_eq!(words[1], vec![WordSegment::DoubleQuoted("hello".into())]);
    assert_eq!(words[2], vec![WordSegment::SingleQuoted("$HOME".into())]);
}

#[test]
fn mixed_quote_segments() {
    let words = tokenize(r#"he"llo"'world'"#).unwrap();
    assert_eq!(words.len(), 1);
    assert_eq!(words[0], vec![
        WordSegment::Unquoted("he".into()),
        WordSegment::DoubleQuoted("llo".into()),
        WordSegment::SingleQuoted("world".into()),
    ]);
}

#[test]
fn escaped_dollar_is_literal() {
    let words = tokenize(r"\$HOME").unwrap();
    assert_eq!(words.len(), 1);
    assert!(words[0].iter().any(|seg| matches!(seg, WordSegment::SingleQuoted(s) if s == "$")));
}

#[test]
fn escaped_tilde_is_literal() {
    let words = tokenize(r"\~").unwrap();
    assert_eq!(words.len(), 1);
    assert!(words[0].iter().any(|seg| matches!(seg, WordSegment::SingleQuoted(s) if s == "~")));
}

#[test]
fn escaped_glob_is_literal() {
    let words = tokenize(r"\*.rs").unwrap();
    assert_eq!(words.len(), 1);
    assert!(words[0].iter().any(|seg| matches!(seg, WordSegment::SingleQuoted(s) if s == "*")));
}

#[test]
fn escaped_char_mid_word_is_literal() {
    let words = tokenize(r"echo foo\$BAR").unwrap();
    assert_eq!(words.len(), 2);
    let second = &words[1];
    assert!(second.iter().any(|seg| matches!(seg, WordSegment::SingleQuoted(s) if s == "$")));
}

#[test]
fn unterminated_double_quote_is_error() {
    let words = tokenize(r#"echo "$HOME"#);
    assert!(words.is_err());
}

#[test]
fn unterminated_single_quote_is_error() {
    let words = tokenize("echo '$HOME");
    assert!(words.is_err());
}

#[test]
fn fd_prefix_merged_with_redirect() {
    let strings = words_to_strings(&tokenize("ls 2>err.txt").unwrap());
    assert_eq!(strings, vec!["ls", "2>", "err.txt"]);
}

#[test]
fn fd_prefix_merged_with_append() {
    let strings = words_to_strings(&tokenize("ls 2>>err.txt").unwrap());
    assert_eq!(strings, vec!["ls", "2>>", "err.txt"]);
}

#[test]
fn fd_prefix_merged_with_dup() {
    let strings = words_to_strings(&tokenize("ls 2>&1").unwrap());
    assert_eq!(strings, vec!["ls", "2>&1"]);
}

#[test]
fn fd_prefix_1_merged_with_dup() {
    let strings = words_to_strings(&tokenize("echo err 1>&2").unwrap());
    assert_eq!(strings, vec!["echo", "err", "1>&2"]);
}

#[test]
fn plain_redirect_no_fd_prefix() {
    let strings = words_to_strings(&tokenize("echo hello > out.txt").unwrap());
    assert_eq!(strings, vec!["echo", "hello", ">", "out.txt"]);
}

#[test]
fn multi_digit_not_merged() {
    let strings = words_to_strings(&tokenize("12>file").unwrap());
    assert_eq!(strings, vec!["12", ">", "file"]);
}

#[test]
fn stdin_redirect_not_merged_with_digit() {
    let strings = words_to_strings(&tokenize("sort < data.txt").unwrap());
    assert_eq!(strings, vec!["sort", "<", "data.txt"]);
}

#[test]
fn split_simple_pipeline() {
    let words = tokenize("echo hello | tr h H").unwrap();
    let segments = split_pipeline(&words).unwrap();
    let strings = segments
        .iter()
        .map(|segment| words_to_strings(segment))
        .collect::<Vec<_>>();
    assert_eq!(strings, vec![vec!["echo", "hello"], vec!["tr", "h", "H"]]);
}

#[test]
fn split_pipeline_errors_on_leading_pipe() {
    let words = tokenize("| echo hi").unwrap();
    assert!(split_pipeline(&words).is_err());
}

#[test]
fn split_pipeline_errors_on_consecutive_pipes() {
    let words = tokenize("echo hi || tr").unwrap();
    assert!(split_pipeline(&words).is_err());
}

#[test]
fn split_pipeline_errors_on_trailing_pipe() {
    let words = tokenize("echo hi |").unwrap();
    assert!(split_pipeline(&words).is_err());
}

#[test]
fn tokenize_error_messages_name_the_quote() {
    assert_eq!(
        tokenize("echo \"open").unwrap_err(),
        "jsh: syntax error: unterminated double quote"
    );
    assert_eq!(
        parse_words("echo 'open").unwrap_err(),
        "jsh: syntax error: unterminated single quote"
    );
}

#[test]
fn split_pipeline_error_messages() {
    let words = tokenize("| echo hi").unwrap();
    assert_eq!(
        split_pipeline(&words).unwrap_err(),
        "jsh: syntax error: missing command before '|'"
    );
    let words = tokenize("echo hi |").unwrap();
    assert_eq!(
        split_pipeline(&words).unwrap_err(),
        "jsh: syntax error: expected command after '|'"
    );
    assert_eq!(
        split_pipeline(&[]).unwrap_err(),
        "jsh: syntax error: expected command after '|'"
    );
}

#[test]
fn operators_are_words_of_their_own() {
    let strings = words_to_strings(&tokenize("a|b&c>>d<<<e >&2 >& <<f").unwrap());
    assert_eq!(
        strings,
        vec!["a", "|", "b", "&", "c", ">>", "d", "<<<", "e", ">&2", ">&", "<<", "f"]
    );
}

#[test]
fn background_word_is_a_bare_ampersand() {
    let words = tokenize("sleep 1 & '&' \\&").unwrap();
    assert_eq!(words.len(), 5);
    assert!(!is_background_word(&words[0]));
    assert!(is_background_word(&words[2]));
    assert!(!is_background_word(&words[3]));
    assert!(!is_background_word(&words[4]));
}

#[test]
fn backslash_in_double_quotes_keeps_other_escapes() {
    let words = tokenize(r#""a\nb\$c\`d""#).unwrap();
    assert_eq!(words[0], vec![WordSegment::DoubleQuoted(r"a\nb$c`d".into())]);
}
