use lightning_manager::words::shell_words_split;

#[test]
fn splits_on_white_space() {
    assert_eq!(shell_words_split("  -Xmx2G   -Xms1G\t-Dx=1 "), vec!["-Xmx2G", "-Xms1G", "-Dx=1"]);
}

#[test]
fn quotes_group_words() {
    assert_eq!(
        shell_words_split("--gameDir \"C:\\My Games\\mc\" --demo"),
        vec!["--gameDir", "C:\\My Games\\mc", "--demo"]
    );
}

#[test]
fn escapes_quote_and_backslash() {
    assert_eq!(shell_words_split("a\\\"b c\\\\d e\\f"), vec!["a\"b", "c\\d", "e\\f"]);
}

#[test]
fn empty_input_gives_no_words() {
    assert!(shell_words_split("").is_empty());
    assert!(shell_words_split("   ").is_empty());
    assert!(shell_words_split("\"\"").is_empty());
}

#[test]
fn plain_text_splits_like_split_whitespace() {
    for text in ["a b  c", "  -Xmx2G\t-XX:+UseG1GC\n", "", "one", "x\u{b}y\u{c}z\r w"] {
        let expected: Vec<String> = text.split_whitespace().map(String::from).collect();
        assert_eq!(shell_words_split(text), expected, "{text:?}");
    }
}
