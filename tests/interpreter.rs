use bf_interpreter::brackets::{find_close, find_open};
use bf_interpreter::interpreter::{ErrorKind, InterpretError, Interpreter, Success};

fn run_program(program: &str, input: &str) -> Result<String, InterpretError> {
    let mut machine = Interpreter::new(program, input);
    machine.run()
}

fn kind_of(r: Result<String, InterpretError>) -> ErrorKind {
    match r {
        Ok(s) => panic!("expected a failure, got output {:?}", s),
        Err(e) => e.kind,
    }
}

#[test]
fn read_then_write_echoes_input() {
    assert_eq!(run_program(",.", "A").unwrap(), "A");
}

#[test]
fn three_increments_write_byte_three() {
    let out = run_program("+++.", "").unwrap();
    assert_eq!(out.as_bytes(), &[3u8]);
}

#[test]
fn loop_multiplies_into_next_cell() {
    let out = run_program("++[>++<-]>.", "").unwrap();
    assert_eq!(out.as_bytes(), &[4u8]);
}

#[test]
fn nested_loops_resolve_their_own_brackets() {
    let out = run_program("++[>++[>+<-]<-]>>.", "").unwrap();
    assert_eq!(out.as_bytes(), &[4u8]);
}

#[test]
fn skipped_nested_loop_jumps_past_outer_bracket() {
    // The first loop is skipped entirely; a scan that stopped at the inner
    // `]` would execute the trailing `+.` inside it.
    let out = run_program("[[-]+.]+.", "").unwrap();
    assert_eq!(out.as_bytes(), &[1u8]);
}

#[test]
fn unmatched_open_bracket_fails() {
    assert_eq!(kind_of(run_program("[", "")), ErrorKind::UnmatchedBracket);
    assert_eq!(kind_of(run_program("+[.", "")), ErrorKind::UnmatchedBracket);
}

#[test]
fn unmatched_open_bracket_fails_on_first_step() {
    let mut machine = Interpreter::new("[", "");
    match machine.step() {
        Err(e) => assert_eq!(e.kind, ErrorKind::UnmatchedBracket),
        Ok(_) => panic!("expected a failure"),
    }
}

#[test]
fn unmatched_close_bracket_fails() {
    assert_eq!(kind_of(run_program("+]", "")), ErrorKind::UnmatchedBracket);
    assert_eq!(kind_of(run_program("]", "")), ErrorKind::UnmatchedBracket);
}

#[test]
fn moving_left_of_first_cell_fails() {
    assert_eq!(kind_of(run_program("<", "")), ErrorKind::DataPointerUnderflow);
    assert_eq!(kind_of(run_program("><<", "")), ErrorKind::DataPointerUnderflow);
}

#[test]
fn tape_grows_to_the_right() {
    let out = run_program(">>>+.<<<++.", "").unwrap();
    assert_eq!(out.as_bytes(), &[1u8, 2u8]);
}

#[test]
fn reading_past_input_fails() {
    assert_eq!(kind_of(run_program(",", "")), ErrorKind::InputExhausted);
    assert_eq!(kind_of(run_program(",.,", "x")), ErrorKind::InputExhausted);
}

#[test]
fn endless_loop_hits_step_limit() {
    let mut machine = Interpreter::with_step_limit("+[]", "", 1000);
    match machine.run() {
        Err(e) => assert_eq!(e.kind, ErrorKind::StepLimitExceeded),
        Ok(_) => panic!("expected a failure"),
    }
}

#[test]
fn step_limit_counts_instructions() {
    let mut exact = Interpreter::with_step_limit("+++.", "", 4);
    assert_eq!(exact.run().unwrap().as_bytes(), &[3u8]);
    let mut short = Interpreter::with_step_limit("+++.", "", 3);
    assert_eq!(short.run().unwrap_err().kind, ErrorKind::StepLimitExceeded);
}

#[test]
fn invalid_utf8_output_fails() {
    assert_eq!(kind_of(run_program("-.", "")), ErrorKind::InvalidOutputEncoding);
}

#[test]
fn decoded_output_is_text_not_bytes_unchanged() {
    // Two bytes that form one two-byte UTF-8 character.
    let out = run_program(",.,.", "é").unwrap();
    assert_eq!(out, "é");
    assert_eq!(out.chars().count(), 1);
}

#[test]
fn step_after_halt_fails() {
    let mut machine = Interpreter::new("", "");
    match machine.step() {
        Err(e) => assert_eq!(e.kind, ErrorKind::Halted),
        Ok(_) => panic!("expected a failure"),
    }
}

#[test]
fn steps_report_running_then_exit() {
    let mut machine = Interpreter::new("+.", "");
    assert_eq!(machine.step().unwrap(), Success::Running);
    assert_eq!(machine.step().unwrap(), Success::Exit);
    assert_eq!(machine.step().unwrap_err().kind, ErrorKind::Halted);
}

#[test]
fn failed_step_leaves_machine_as_it_was() {
    let mut machine = Interpreter::new("+<", "");
    assert_eq!(machine.step().unwrap(), Success::Running);
    assert_eq!(machine.step().unwrap_err().kind, ErrorKind::DataPointerUnderflow);
    assert_eq!(machine.step().unwrap_err().kind, ErrorKind::DataPointerUnderflow);
}

#[test]
fn increments_wrap_around() {
    let program = format!("{}.", "+".repeat(258));
    assert_eq!(run_program(&program, "").unwrap().as_bytes(), &[2u8]);
    let program = format!("{}.", "-".repeat(255));
    assert_eq!(run_program(&program, "").unwrap().as_bytes(), &[1u8]);
    assert_eq!(run_program("+++--.", "").unwrap().as_bytes(), &[1u8]);
}

#[test]
fn echo_reads_next_unread_byte() {
    assert_eq!(run_program(",.,.", "xyz").unwrap(), "xy");
    assert_eq!(run_program(",,.", "xyz").unwrap(), "y");
}

#[test]
fn comment_only_program_halts_with_empty_output() {
    assert_eq!(run_program("hello world no commands here", "").unwrap(), "");
    assert_eq!(run_program("", "abc").unwrap(), "");
}

#[test]
fn fresh_machines_give_identical_output() {
    let program = "++++++++[>++++[>++>+++>+++>+<<<<-]>+>+>->>+[<]<-]>>.>---.+++++++..+++.>>.<-.<.+++.------.--------.>>+.>++.";
    let first = run_program(program, "").unwrap();
    let second = run_program(program, "").unwrap();
    assert_eq!(first, second);
    assert_eq!(first, "Hello World!\n");
}

#[test]
fn bracket_scans_find_own_partner() {
    let p = b"[[]][]";
    assert_eq!(find_close(p, 0), Some(3));
    assert_eq!(find_close(p, 1), Some(2));
    assert_eq!(find_close(p, 4), Some(5));
    assert_eq!(find_open(p, 3), Some(0));
    assert_eq!(find_open(p, 2), Some(1));
    assert_eq!(find_open(p, 5), Some(4));
    assert_eq!(find_close(b"[[]", 0), None);
    assert_eq!(find_open(b"[]]", 2), None);
}

#[test]
fn error_constructor_keeps_kind() {
    assert_eq!(InterpretError::new(ErrorKind::InputExhausted).kind, ErrorKind::InputExhausted);
}
