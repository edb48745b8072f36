use james_shell::env::Environment;
use james_shell::expander::{
    contains_glob_chars, expand_globs, expand_tilde, expand_variables, expand_word, expand_words,
    glob_fields, has_unquoted_expansion,
};
use james_shell::parser::{tokenize, WordSegment};

fn test_env() -> Environment {
    let mut env = Environment::new(31337);
    env.set("HOME".to_string(), "/home/tester".to_string());
    env.set("JSH_TEST_VAR".to_string(), "hello".to_string());
    env.set("JSH_TEST_VAR2".to_string(), "world".to_string());
    env.set("JSH_DQ_TEST".to_string(), "expanded".to_string());
    env.set("JSH_SPLIT_TEST".to_string(), "alpha beta".to_string());
    env
}

#[test]
fn tilde_alone() {
    let expanded = expand_tilde("~", &test_env());
    assert!(!expanded.is_empty());
    assert_ne!(expanded, "~");
}

#[test]
fn tilde_with_path() {
    let expanded = expand_tilde("~/projects", &test_env());
    assert!(expanded.ends_with("/projects") || expanded.ends_with("\\projects"));
    assert!(!expanded.starts_with('~'));
}

#[test]
fn tilde_in_middle_not_expanded() {
    assert_eq!(expand_tilde("foo~bar", &test_env()), "foo~bar");
}

#[test]
fn variable_simple() {
    let result = expand_variables("$JSH_TEST_VAR", 0, &test_env());
    assert_eq!(result, "hello");
}

#[test]
fn variable_braced() {
    let result = expand_variables("${JSH_TEST_VAR2}!", 0, &test_env());
    assert_eq!(result, "world!");
}

#[test]
fn variable_braced_missing_close_is_literal() {
    let result = expand_variables("${JSH_MISSING", 0, &test_env());
    assert_eq!(result, "${JSH_MISSING");
}

#[test]
fn variable_exit_code() {
    assert_eq!(expand_variables("$?", 42, &test_env()), "42");
    assert_eq!(expand_variables("$?", 0, &test_env()), "0");
}

#[test]
fn variable_pid() {
    let result = expand_variables("$$", 0, &test_env());
    let pid: u32 = result.parse().expect("$$ should be a number");
    assert!(pid > 0);
    assert_eq!(pid, 31337);
}

#[test]
fn variable_shell_name() {
    assert_eq!(expand_variables("$0", 0, &test_env()), "jsh");
}

#[test]
fn variable_undefined_is_empty() {
    let result = expand_variables("$DEFINITELY_NOT_SET_XYZ123", 0, &test_env());
    assert_eq!(result, "");
}

#[test]
fn trailing_dollar_literal() {
    assert_eq!(expand_variables("price$", 0, &test_env()), "price$");
}

#[test]
fn dollar_followed_by_non_var_char() {
    assert_eq!(expand_variables("$+foo", 0, &test_env()), "$+foo");
}

#[test]
fn single_quoted_no_expansion() {
    let word = vec![WordSegment::SingleQuoted("$HOME".into())];
    let result = expand_word(&word, 0, &test_env());
    assert_eq!(result, vec!["$HOME"]);
}

#[test]
fn double_quoted_expands_vars() {
    let word = vec![WordSegment::DoubleQuoted("$JSH_DQ_TEST".into())];
    let result = expand_word(&word, 0, &test_env());
    assert_eq!(result, vec!["expanded"]);
}

#[test]
fn double_quoted_no_glob() {
    let word = vec![WordSegment::DoubleQuoted("*.rs".into())];
    let result = expand_word(&word, 0, &test_env());
    assert_eq!(result, vec!["*.rs"]);
}

#[test]
fn no_glob_matches_keeps_literal() {
    let result = expand_globs("*.definitely_not_a_real_extension_xyz");
    assert_eq!(result, vec!["*.definitely_not_a_real_extension_xyz"]);
}

#[test]
fn word_split_for_unquoted_variable() {
    let word = vec![WordSegment::Unquoted("$JSH_SPLIT_TEST".into())];
    let result = expand_word(&word, 0, &test_env());
    assert_eq!(result, vec!["alpha", "beta"]);
}

#[test]
fn no_word_split_in_quotes() {
    let word = vec![WordSegment::DoubleQuoted("$JSH_SPLIT_TEST".into())];
    let result = expand_word(&word, 0, &test_env());
    assert_eq!(result, vec!["alpha beta"]);
}

#[test]
fn negative_exit_code_and_empty_braces() {
    let env = test_env();
    assert_eq!(expand_variables("[$?]", -7, &env), "[-7]");
    assert_eq!(expand_variables("a${}b", 0, &env), "a${}b");
    assert_eq!(expand_variables("$JSH_TEST_VAR-x", 0, &env), "hello-x");
    assert_eq!(expand_variables("$_nope$JSH_TEST_VAR2", 0, &env), "world");
    assert_eq!(expand_variables("$$$?", 3, &env), "313373");
}

#[test]
fn home_falls_back() {
    let mut env = Environment::new(1);
    assert_eq!(expand_tilde("~", &env), "~");
    env.set("USERPROFILE".to_string(), "C:\\Users\\x".to_string());
    assert_eq!(expand_tilde("~\\docs", &env), "C:\\Users\\x\\docs");
    env.set("HOME".to_string(), "/h".to_string());
    assert_eq!(expand_tilde("~/docs", &env), "/h/docs");
    assert_eq!(expand_tilde("~user", &env), "~user");
    assert_eq!(expand_tilde("", &env), "");
}

#[test]
fn unquoted_expansion_detection() {
    assert!(has_unquoted_expansion("$HOME"));
    assert!(has_unquoted_expansion("a$?"));
    assert!(has_unquoted_expansion("${X}"));
    assert!(!has_unquoted_expansion("${X"));
    assert!(!has_unquoted_expansion("price$"));
    assert!(!has_unquoted_expansion("$+"));
    assert!(has_unquoted_expansion("$+$0"));
    assert!(!has_unquoted_expansion("plain"));
}

#[test]
fn mixed_word_joins_and_splits() {
    let env = test_env();
    let words = tokenize("pre$JSH_SPLIT_TEST'post' \"$JSH_TEST_VAR\"$JSH_TEST_VAR2 $UNSET_X").unwrap();
    let result = expand_words(&words, 0, &env);
    assert_eq!(result, vec!["prealphapost", "betapost", "helloworld", ""]);
}

#[test]
fn glob_characters_are_detected() {
    assert!(contains_glob_chars("*.rs"));
    assert!(contains_glob_chars("a?c"));
    assert!(contains_glob_chars("[ab]"));
    assert!(!contains_glob_chars("plain.txt"));
}

#[test]
fn glob_fields_sorts_matches_and_falls_back() {
    let found = Some(vec![
        Some("b.txt".to_string()),
        None,
        Some("a.txt".to_string()),
        Some("B.txt".to_string()),
    ]);
    assert_eq!(glob_fields("*.txt", found), vec!["B.txt", "a.txt", "b.txt"]);
    assert_eq!(glob_fields("*.txt", Some(vec![None])), vec!["*.txt"]);
    assert_eq!(glob_fields("*.txt", Some(vec![])), vec!["*.txt"]);
    assert_eq!(glob_fields("[", None), vec!["["]);
}

#[test]
fn glob_lists_the_root_in_order() {
    let result = expand_globs("/*");
    assert_ne!(result, vec!["/*"]);
    assert!(result.iter().all(|path| path.starts_with('/')));
    let mut sorted = result.clone();
    sorted.sort();
    assert_eq!(result, sorted);
    let word = vec![WordSegment::Unquoted("/*".into())];
    assert_eq!(expand_word(&word, 0, &test_env()), result);
}
