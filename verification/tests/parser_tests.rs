use gash::lexer::lex;
use gash::parser::{Cmd, FilePermission, ParseError, PathType, parse};

#[test]
fn parse_single_command_splits_program_and_args() {
    let cmd = Cmd::new("wc -l file.txt").unwrap();
    assert_eq!(cmd.program, "wc");
    assert_eq!(cmd.argv, ["-l", "file.txt"]);
    assert!(cmd.pipe.is_none());
    assert!(cmd.file.is_none());
    assert!(cmd.last);
}

#[test]
fn parse_pipe_then_redirect_attaches_to_the_downstream_stage() {
    // the write redirect belongs to stage 2 (`b`), not stage 1
    let cmd = Cmd::new("a | b > out.txt").unwrap();
    assert_eq!(cmd.program, "a");
    assert!(cmd.file.is_none());
    assert!(!cmd.last);
    let second = cmd.pipe.as_ref().unwrap();
    assert_eq!(second.program, "b");
    assert!(second.last);
    let redirect = second.file.as_ref().unwrap();
    assert_eq!(redirect.path, "out.txt");
    assert_eq!(redirect.mode, FilePermission::Write);
}

#[test]
fn parse_redirect_before_pipe_stays_on_the_stage_it_was_attached_to() {
    // at attachment time `a` is the terminal stage, so it keeps the redirect
    // even after `b` is piped on below it
    let cmd = Cmd::new("a > out.txt | b").unwrap();
    assert_eq!(cmd.program, "a");
    let redirect = cmd.file.as_ref().unwrap();
    assert_eq!(redirect.path, "out.txt");
    assert_eq!(redirect.mode, FilePermission::Write);
    let second = cmd.pipe.as_ref().unwrap();
    assert_eq!(second.program, "b");
    assert!(second.file.is_none());
    assert!(second.last);
}

#[test]
fn parse_read_redirect() {
    let cmd = Cmd::new("wc -l < data.txt").unwrap();
    assert_eq!(cmd.program, "wc");
    assert_eq!(cmd.argv, ["-l"]);
    let redirect = cmd.file.as_ref().unwrap();
    assert_eq!(redirect.path, "data.txt");
    assert_eq!(redirect.mode, FilePermission::Read);
}

#[test]
fn parse_three_stage_pipeline() {
    let cmd = Cmd::new("a | b | c").unwrap();
    let stages = cmd.iter();
    assert_eq!(stages.len(), 3);
    assert_eq!(stages[0].program, "a");
    assert_eq!(stages[1].program, "b");
    assert_eq!(stages[2].program, "c");
}

#[test]
fn parse_empty_token_list_is_rejected() {
    let r = parse(&Vec::new());
    assert_eq!(r.err().unwrap(), ParseError::EmptyPipeline);
}

#[test]
fn parse_leading_operator_is_rejected() {
    // "| |" lexes to ["|", "|", ""]: the first token is an operator, so the
    // first word token finds no stage to attach to
    let r = parse(&lex("| |"));
    assert_eq!(r.err().unwrap(), ParseError::DanglingOperator);
}

#[test]
fn set_pipe_appends_at_the_bottom_and_set_path_hits_the_terminal_stage() {
    let a = Cmd::new_stage("a");
    let b = Cmd::new_stage("b");
    let chained = a.set_pipe(Box::new(b));
    let redirected = chained.set_path(PathType::new("f".to_string(), FilePermission::Read));
    assert!(redirected.file.is_none());
    let tail = redirected.pipe.as_ref().unwrap();
    assert_eq!(tail.program, "b");
    let redirect = tail.file.as_ref().unwrap();
    assert_eq!(redirect.path, "f");
    assert_eq!(redirect.mode, FilePermission::Read);
}
