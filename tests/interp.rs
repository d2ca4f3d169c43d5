use bfi::interp::{Action, Interpreter};
use bfi::parser::Parser;
use bfi::tape::{Tape, DEFAULT_TAPE_LEN};

/// Runs `program` on a zeroed tape, feeding it `input`; fails where an
/// input byte is asked for and none is left.
fn run_on(program: &[u8], input: &[u8], tape_len: usize) -> Result<(Vec<u8>, u8), String> {
    let mut interp = Interpreter::new(Parser::parse(program), Tape::new(tape_len));
    let mut out = Vec::new();
    let mut input = input.iter();
    loop {
        match interp.step() {
            Action::Continue => {}
            Action::Output(b) => out.push(b),
            Action::Input => match input.next() {
                Some(&b) => interp.store(b),
                None => return Err(format!("input exhausted after {} output bytes", out.len())),
            },
            Action::Halt(v) => return Ok((out, v)),
        }
    }
}

#[test]
fn increment_then_print_outputs_one() {
    assert_eq!(run_on(b"+.", b"", DEFAULT_TAPE_LEN), Ok((vec![1], 1)));
}

#[test]
fn countdown_loop_prints_each_value() {
    let (out, v) = run_on(b"++++++++[-.]", b"", DEFAULT_TAPE_LEN).unwrap();
    assert_eq!(out, vec![7, 6, 5, 4, 3, 2, 1, 0]);
    assert_eq!(v, 0);
}

#[test]
fn hello_program_prints_hello() {
    let program = b">++++++++[<+++++++++>-]<.
          >++++[<+++++++>-]<+.
          +++++++..
          +++.";
    let (out, v) = run_on(program, b"", DEFAULT_TAPE_LEN).unwrap();
    assert_eq!(out, b"Hello".to_vec());
    assert_eq!(v, b'o');
}

#[test]
fn cat_echoes_until_zero_byte() {
    let (out, v) = run_on(b",[.,]", &[b'a', b'b', 0], DEFAULT_TAPE_LEN).unwrap();
    assert_eq!(out, b"ab".to_vec());
    assert_eq!(v, 0);
}

#[test]
fn input_with_nothing_left_fails() {
    assert!(run_on(b",", b"", DEFAULT_TAPE_LEN).is_err());
    assert_eq!(
        run_on(b",[.,]", b"xy", DEFAULT_TAPE_LEN),
        Err("input exhausted after 2 output bytes".to_string())
    );
}

#[test]
fn cells_wrap_modulo_256() {
    assert_eq!(run_on(b"-.", b"", 4), Ok((vec![255], 255)));
    assert_eq!(run_on(b"-+.", b"", 4), Ok((vec![0], 0)));
    let mut tape = Tape::new(2);
    tape.store(255);
    tape.increment();
    assert_eq!(tape.current(), 0);
    tape.decrement();
    assert_eq!(tape.current(), 255);
}

#[test]
fn pointer_wraps_at_both_ends() {
    let mut tape = Tape::new(5);
    tape.move_left();
    assert_eq!(tape.pointer(), 4);
    tape.move_right();
    assert_eq!(tape.pointer(), 0);
    tape.move_right();
    assert_eq!(tape.pointer(), 1);
    // the last cell is reached from the first by moving left
    assert_eq!(run_on(b"<+>>+<<.", b"", 3), Ok((vec![1], 1)));
}

#[test]
fn fresh_tape_is_zeroed() {
    let tape = Tape::new(DEFAULT_TAPE_LEN);
    assert_eq!(tape.len(), 30000);
    assert_eq!(tape.pointer(), 0);
    assert_eq!(tape.get(0), 0);
    assert_eq!(tape.get(29999), 0);
}

#[test]
fn final_value_is_cell_under_pointer() {
    assert_eq!(run_on(b"+++>++", b"", 10), Ok((vec![], 2)));
    assert_eq!(run_on(b"+++>++<", b"", 10), Ok((vec![], 3)));
}

#[test]
fn halted_program_stays_halted() {
    let mut interp = Interpreter::new(Parser::parse(b"+]+++"), Tape::new(3));
    assert_eq!(interp.step(), Action::Continue);
    assert_eq!(interp.step(), Action::Halt(1));
    assert!(interp.is_halted());
    assert_eq!(interp.step(), Action::Halt(1));
    assert_eq!(interp.tape().current(), 1);
}

#[test]
fn skipped_loop_body_is_not_run() {
    assert_eq!(run_on(b"[+.]-", b"", 3), Ok((vec![], 255)));
}
