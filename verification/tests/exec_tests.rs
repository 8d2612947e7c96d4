use gash::exec::{Directive, RejectReason, StdinWiring, StdoutWiring, dispatch};
use gash::parser::ParseError;

#[test]
fn single_bare_command_takes_the_fast_path() {
    // no pipe and no redirect: both streams inherited, no buffering step
    match dispatch("echo hi") {
        Directive::Foreground(plan) => {
            assert_eq!(plan.stages.len(), 1);
            assert_eq!(plan.stages[0].program, "echo");
            assert_eq!(plan.stages[0].argv, ["hi"]);
            assert_eq!(plan.stages[0].stdin, StdinWiring::Inherit);
            assert_eq!(plan.stages[0].stdout, StdoutWiring::Inherit);
            assert!(plan.stages[0].input_file.is_none());
            assert!(plan.write_to.is_none());
        }
        _ => panic!("expected a foreground plan"),
    }
}

#[test]
fn two_stage_pipeline_relays_the_full_buffer() {
    // the head writes into a captured pipe; the tail is fed that whole
    // buffer and inherits the shell's stdout
    match dispatch("echo hi | tr a-z A-Z") {
        Directive::Foreground(plan) => {
            assert_eq!(plan.stages.len(), 2);
            assert_eq!(plan.stages[0].program, "echo");
            assert_eq!(plan.stages[0].argv, ["hi"]);
            assert_eq!(plan.stages[0].stdin, StdinWiring::ClosedPipe);
            assert_eq!(plan.stages[0].stdout, StdoutWiring::Captured);
            assert_eq!(plan.stages[1].program, "tr");
            assert_eq!(plan.stages[1].argv, ["a-z", "A-Z"]);
            assert_eq!(plan.stages[1].stdin, StdinWiring::FromPrev);
            assert_eq!(plan.stages[1].stdout, StdoutWiring::Inherit);
            assert!(plan.write_to.is_none());
        }
        _ => panic!("expected a foreground plan"),
    }
}

#[test]
fn terminal_write_redirect_captures_the_output_for_the_file() {
    match dispatch("a | b > out.txt") {
        Directive::Foreground(plan) => {
            assert_eq!(plan.stages.len(), 2);
            assert_eq!(plan.stages[1].stdout, StdoutWiring::Captured);
            assert_eq!(plan.write_to.as_deref(), Some("out.txt"));
        }
        _ => panic!("expected a foreground plan"),
    }
}

#[test]
fn read_redirect_feeds_the_file_instead_of_the_terminal() {
    match dispatch("wc -l < data.txt") {
        Directive::Foreground(plan) => {
            assert_eq!(plan.stages.len(), 1);
            assert_eq!(plan.stages[0].stdin, StdinWiring::FromFile);
            assert_eq!(plan.stages[0].input_file.as_deref(), Some("data.txt"));
            assert_eq!(plan.stages[0].stdout, StdoutWiring::Inherit);
            assert!(plan.write_to.is_none());
        }
        _ => panic!("expected a foreground plan"),
    }
}

#[test]
fn single_stage_write_redirect_captures_and_writes() {
    match dispatch("cat > f") {
        Directive::Foreground(plan) => {
            assert_eq!(plan.stages.len(), 1);
            assert_eq!(plan.stages[0].stdin, StdinWiring::ClosedPipe);
            assert_eq!(plan.stages[0].stdout, StdoutWiring::Captured);
            assert_eq!(plan.write_to.as_deref(), Some("f"));
        }
        _ => panic!("expected a foreground plan"),
    }
}

#[test]
fn read_redirect_mid_chain_replaces_the_pipe_input() {
    // the file feeds that stage's input in place of the previous stage's
    // output, wherever in the chain the redirect sits
    match dispatch("a | b < f | c") {
        Directive::Foreground(plan) => {
            assert_eq!(plan.stages.len(), 3);
            assert_eq!(plan.stages[0].stdin, StdinWiring::ClosedPipe);
            assert_eq!(plan.stages[1].stdin, StdinWiring::FromFile);
            assert_eq!(plan.stages[1].input_file.as_deref(), Some("f"));
            assert_eq!(plan.stages[2].stdin, StdinWiring::FromPrev);
            assert_eq!(plan.stages[2].stdout, StdoutWiring::Inherit);
        }
        _ => panic!("expected a foreground plan"),
    }
}

#[test]
fn write_redirect_on_a_non_terminal_stage_is_rejected() {
    match dispatch("a > f | b") {
        Directive::Rejected(RejectReason::WriteRedirectNotLast) => {}
        _ => panic!("expected a rejection"),
    }
}

#[test]
fn background_marker_on_a_pipeline_is_rejected() {
    match dispatch("a | b &") {
        Directive::Rejected(RejectReason::BackgroundNotBare) => {}
        _ => panic!("expected a rejection"),
    }
}

#[test]
fn leading_operator_is_a_syntax_error() {
    match dispatch("| |") {
        Directive::Rejected(RejectReason::Syntax(e)) => {
            assert_eq!(e, ParseError::DanglingOperator);
        }
        _ => panic!("expected a syntax rejection"),
    }
}

#[test]
fn empty_line_plans_an_empty_program_name() {
    // an empty line still lexes to one empty token; the caller is expected
    // to filter empty input before launching anything, as the interactive
    // loop does
    match dispatch("") {
        Directive::Foreground(plan) => {
            assert_eq!(plan.stages.len(), 1);
            assert_eq!(plan.stages[0].program, "");
            assert!(plan.stages[0].argv.is_empty());
        }
        _ => panic!("expected a foreground plan"),
    }
}

#[test]
fn bare_background_command_strips_the_marker() {
    match dispatch("sleep 5 &") {
        Directive::Background { program, argv } => {
            assert_eq!(program, "sleep");
            assert_eq!(argv, ["5"]);
        }
        _ => panic!("expected a background directive"),
    }
}
