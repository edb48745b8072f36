use james_shell::display::{write_chain, write_words};
use james_shell::parser::{tokenize, WordSegment};
use james_shell::script_parser::parse_chain;

fn chain_shape(line: &str) -> Vec<(String, Vec<Vec<WordSegment>>)> {
    parse_chain(tokenize(line).unwrap())
        .unwrap()
        .into_iter()
        .map(|entry| (format!("{:?}", entry.connector), entry.words))
        .collect()
}

#[test]
fn words_are_written_in_their_quoting() {
    let words = tokenize(r#"echo "a \"b\" $c \n" 'x y' \' pre"mid"'post' 2>&1 >> out | wc &"#).unwrap();
    assert_eq!(
        write_words(&words),
        r#"echo "a \"b\" \$c \\n" 'x y' \' pre"mid"'post' 2>&1 >> out | wc &"#
    );
    assert_eq!(write_words(&tokenize("a & & b | | c & | d").unwrap()), "a && b || c & | d");
    assert_eq!(write_words(&[]), "");
    assert_eq!(write_words(&tokenize("  a   b  ").unwrap()), "a b");
    assert_eq!(write_words(&tokenize(r"a\ b \\ x\").unwrap()), r"a' 'b '\' x'\'");
}

#[test]
fn written_words_read_back_the_same() {
    for line in [
        "echo hello world",
        r#"echo "hello   world" foo\ bar 'single quotes'"#,
        r#"he"llo"'world' "" '' \$HOME "\$x\\" 'a"b' "it's""#,
        "ls 2>err.txt 12>file > a >> b >&2 >& 1 < in <<< text << x 2 > y 3>&1",
        "a|b||c&&d&e ; f;g | | h & &",
        r"trail\",
        "",
    ] {
        let words = tokenize(line).unwrap();
        let written = write_words(&words);
        assert_eq!(tokenize(&written).unwrap(), words, "{line} -> {written}");
        assert_eq!(write_words(&tokenize(&written).unwrap()), written);
    }
}

#[test]
fn written_chain_parses_to_the_same_chain() {
    for line in [
        "false && echo skipped || echo ran",
        "ls | wc && echo 'done; really' ; echo \"a && b\" || x 2>&1 | y",
        "a && & b",
        "single",
    ] {
        let chain = parse_chain(tokenize(line).unwrap()).unwrap();
        let written = write_chain(&chain);
        assert_eq!(chain_shape(&written), chain_shape(line), "{line} -> {written}");
    }
    assert_eq!(
        write_chain(&parse_chain(tokenize("a   &&b||  c ; d |e").unwrap()).unwrap()),
        "a && b || c ; d | e"
    );
    assert_eq!(write_chain(&[]), "");
}
