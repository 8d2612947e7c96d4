use gash::lexer::lex;

#[test]
fn lex_no_operator_is_one_trimmed_token() {
    assert_eq!(lex("  echo hi  "), ["echo hi"]);
}

#[test]
fn lex_simple_pipe() {
    assert_eq!(lex("a | b"), ["a", "|", "b"]);
}

#[test]
fn lex_operator_glued_to_words_still_splits() {
    assert_eq!(lex("cat|grep x"), ["cat", "|", "grep x"]);
}

#[test]
fn lex_redirect_then_pipe() {
    assert_eq!(lex("a > out.txt | b"), ["a", ">", "out.txt", "|", "b"]);
}

#[test]
fn lex_break_char_at_position_zero_is_not_a_split_point() {
    // a documented quirk: a leading operator stays inside the first slice
    assert_eq!(lex("|abc"), ["|abc"]);
}

#[test]
fn lex_adjacent_operators_give_an_empty_slice() {
    assert_eq!(lex("a ||b"), ["a", "|", "", "|", "b"]);
}

fn without_spaces(s: &str) -> String {
    s.chars().filter(|c| *c != ' ' && *c != '\t').collect()
}

#[test]
fn lex_rejoin_reconstructs_input_up_to_whitespace() {
    for line in ["a  b|c", "cat file.txt | wc -l > out", "  x<y  ", "echo hi"] {
        let rejoined = lex(line).join(" ");
        assert_eq!(without_spaces(&rejoined), without_spaces(line));
    }
}
