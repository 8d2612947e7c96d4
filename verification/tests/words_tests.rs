use gash::words::split_words;

#[test]
fn split_plain_words() {
    assert_eq!(split_words("ls -l -a"), ["ls", "-l", "-a"]);
}

#[test]
fn split_quoted_span_is_one_word() {
    assert_eq!(split_words("a \"b c\" d"), ["a", "b c", "d"]);
}

#[test]
fn split_escaped_space_stays_in_the_word() {
    // a space preceded by a backslash does not end the word, and the
    // backslash itself is kept: only `\n` is ever decoded
    assert_eq!(split_words("x\\ y"), ["x\\ y"]);
}

#[test]
fn split_checks_only_the_preceding_character_not_the_escape_state() {
    // a documented quirk: the splitter looks one character back instead of
    // tracking escapes, so even after an escaped backslash the space does
    // not split
    assert_eq!(split_words("x\\\\ y"), ["x\\\\ y"]);
}

#[test]
fn split_keeps_a_word_of_one_space_after_a_leading_space() {
    // a documented quirk: position 0 is never a split point, so a leading
    // run of spaces yields a one-space word
    assert_eq!(split_words("  a"), [" ", "a"]);
}

#[test]
fn split_decodes_newline_escape() {
    assert_eq!(split_words("echo a\\nb"), ["echo", "a\nb"]);
}

#[test]
fn split_drops_empty_words() {
    assert_eq!(split_words("a   b"), ["a", "b"]);
}

#[test]
fn split_quote_opened_mid_word_drops_the_prefix() {
    // a documented quirk: the run before an opening quote is discarded
    assert_eq!(split_words("ab\"cd e\""), ["cd e"]);
}

#[test]
fn split_empty_input_gives_no_words() {
    assert_eq!(split_words(""), Vec::<String>::new());
}
