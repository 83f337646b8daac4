use bf_interp::interpreter::{Failure, Interpreter, Progress, RuntimeError, TAPE_SIZE};
use bf_interp::lexer::{Intrinsic, Loc, Token, Tokenizer};

fn program_of(text: &str) -> Vec<Token> {
    let content = String::from(text);
    let mut tokenizer = Tokenizer::new(&content, content.len() as i32);
    tokenizer.tokenize().unwrap()
}

fn run_with_input(text: &str, lines: &[&str]) -> Result<Interpreter, RuntimeError> {
    let mut machine = Interpreter::new(program_of(text));
    let mut next_line = 0;
    let mut steps = 0;
    while !machine.finished() {
        let line = if machine.needs_input() && next_line < lines.len() {
            next_line += 1;
            lines[next_line - 1]
        } else {
            ""
        };
        machine.step(line)?;
        steps += 1;
        assert!(steps < 1_000_000, "the program does not end");
    }
    Ok(machine)
}

fn run(text: &str) -> Result<Interpreter, RuntimeError> {
    run_with_input(text, &[])
}

fn simulated_output(text: &str) -> String {
    let program: Vec<char> = text.chars().collect();
    let mut tape = vec![0i64; 1000];
    let mut pointer = 0usize;
    let mut counter = 0usize;
    let mut open: Vec<usize> = Vec::new();
    let mut out = String::new();
    while counter < program.len() {
        match program[counter] {
            '+' => tape[pointer] = if tape[pointer] >= 255 { 0 } else { tape[pointer] + 1 },
            '-' => tape[pointer] = if tape[pointer] < 1 { 255 } else { tape[pointer] - 1 },
            '<' => pointer = pointer.saturating_sub(1),
            '>' => pointer = (pointer + 1).min(999),
            '.' => {
                if let Some(c) = u32::try_from(tape[pointer]).ok().and_then(char::from_u32) {
                    out.push(c);
                }
            }
            '[' => open.push(counter),
            ']' => {
                if tape[pointer] != 0 {
                    counter = *open.last().unwrap();
                } else {
                    open.pop();
                }
            }
            other => panic!("not simulated: {}", other),
        }
        counter += 1;
    }
    out
}

#[test]
fn fresh_interpreter_starts_on_a_tape_of_zeros() {
    let machine = Interpreter::new(program_of("+"));
    assert_eq!(machine.tape().len(), TAPE_SIZE);
    assert_eq!(TAPE_SIZE, 1000);
    assert!(machine.tape().iter().all(|cell| *cell == 0));
    assert_eq!(machine.pointer(), 0);
    assert_eq!(machine.program_counter(), 0);
    assert_eq!(machine.output(), "");
    assert!(!machine.finished());
}

#[test]
fn empty_program_is_finished_at_once() {
    let mut machine = Interpreter::new(Vec::new());
    assert!(machine.finished());
    assert!(!machine.needs_input());
    assert_eq!(machine.step(""), Ok(Progress::Halted));
    assert_eq!(machine.program_counter(), 0);
    assert_eq!(machine.output(), "");
}

#[test]
fn step_executes_one_token() {
    let mut machine = Interpreter::new(program_of("+>"));
    assert_eq!(machine.step(""), Ok(Progress::Advanced));
    assert_eq!(machine.tape()[0], 1);
    assert_eq!(machine.pointer(), 0);
    assert_eq!(machine.program_counter(), 1);
    assert_eq!(machine.step(""), Ok(Progress::Advanced));
    assert_eq!(machine.pointer(), 1);
    assert_eq!(machine.program_counter(), 2);
    assert!(machine.finished());
    assert_eq!(machine.step(""), Ok(Progress::Halted));
    assert_eq!(machine.program_counter(), 2);
    assert_eq!(machine.tape()[0], 1);
}

#[test]
fn increment_wraps_from_255_to_0() {
    let machine = run(&"+".repeat(255)).unwrap();
    assert_eq!(machine.tape()[0], 255);
    let machine = run(&"+".repeat(256)).unwrap();
    assert_eq!(machine.tape()[0], 0);
    let machine = run(&"+".repeat(257)).unwrap();
    assert_eq!(machine.tape()[0], 1);
}

#[test]
fn decrement_wraps_from_0_to_255() {
    let machine = run("-").unwrap();
    assert_eq!(machine.tape()[0], 255);
    let machine = run("--").unwrap();
    assert_eq!(machine.tape()[0], 254);
    let machine = run("+-").unwrap();
    assert_eq!(machine.tape()[0], 0);
}

#[test]
fn increment_and_decrement_reset_values_out_of_range() {
    let machine = run_with_input(",+", &["\u{100}"]).unwrap();
    assert_eq!(machine.tape()[0], 0);
    let machine = run_with_input(",-", &["\u{100}"]).unwrap();
    assert_eq!(machine.tape()[0], 255);
    let machine = run("!+").unwrap();
    assert_eq!(machine.tape()[1], 0);
    let machine = run("!-").unwrap();
    assert_eq!(machine.tape()[1], 255);
}

#[test]
fn shift_left_clamps_at_the_first_cell() {
    let machine = run("<").unwrap();
    assert_eq!(machine.pointer(), 0);
    let machine = run("><<<+").unwrap();
    assert_eq!(machine.pointer(), 0);
    assert_eq!(machine.tape()[0], 1);
}

#[test]
fn shift_right_clamps_at_the_last_cell() {
    let machine = run(&">".repeat(999)).unwrap();
    assert_eq!(machine.pointer(), 999);
    let machine = run(&(">".repeat(1005) + "+")).unwrap();
    assert_eq!(machine.pointer(), 999);
    assert_eq!(machine.tape()[999], 1);
}

#[test]
fn move_loop_transfers_the_cell() {
    let machine = run("+++[->+<]").unwrap();
    assert_eq!(machine.tape()[0], 0);
    assert_eq!(machine.tape()[1], 3);
    assert!(machine.tape()[2..].iter().all(|cell| *cell == 0));
    assert_eq!(machine.pointer(), 0);
    assert_eq!(machine.program_counter(), 9);
}

#[test]
fn move_loop_takes_five_steps_a_round() {
    let mut machine = Interpreter::new(program_of("+++[->+<]"));
    let mut steps = 0;
    while !machine.finished() {
        assert_eq!(machine.step(""), Ok(Progress::Advanced));
        steps += 1;
    }
    assert_eq!(steps, 3 + 1 + 5 * 3);
}

#[test]
fn nested_loops_multiply() {
    let machine = run("++[>++[>+<-]<-]").unwrap();
    assert_eq!(&machine.tape()[..3], &[0, 0, 4]);
    assert_eq!(machine.pointer(), 0);
}

#[test]
fn loop_body_runs_before_the_first_test() {
    let machine = run("[+]").unwrap();
    assert_eq!(machine.tape()[0], 0);
    let machine = run("[>+<]").unwrap();
    assert_eq!(machine.tape()[1], 1);
}

#[test]
fn jump_back_goes_to_the_token_after_the_loop_start() {
    let mut machine = Interpreter::new(program_of("++[-]"));
    for _ in 0..5 {
        assert_eq!(machine.step(""), Ok(Progress::Advanced));
    }
    assert_eq!(machine.tape()[0], 1);
    assert_eq!(machine.program_counter(), 3);
    assert_eq!(machine.step(""), Ok(Progress::Advanced));
    assert_eq!(machine.tape()[0], 0);
    assert_eq!(machine.step(""), Ok(Progress::Advanced));
    assert!(machine.finished());
}

#[test]
fn jump_back_without_open_loop_is_an_error() {
    let error = run("+]").err().unwrap();
    assert_eq!(error.kind, Failure::UnmatchedJumpBack);
    assert_eq!(error.token.intrinsic, Intrinsic::JumpBack);
    assert_eq!(error.token.position, Loc { line: 1, column: 2 });
    let error = run("+\n\n+]").err().unwrap();
    assert_eq!(error.token.position, Loc { line: 3, column: 2 });
}

#[test]
fn jump_back_after_the_loop_was_left_is_an_error() {
    let error = run("+[-]+]").err().unwrap();
    assert_eq!(error.kind, Failure::UnmatchedJumpBack);
    assert_eq!(error.token.position, Loc { line: 1, column: 6 });
}

#[test]
fn jump_back_on_a_zero_cell_goes_on() {
    let machine = run("]+").unwrap();
    assert_eq!(machine.tape()[0], 1);
    assert!(machine.finished());
}

#[test]
fn error_leaves_the_machine_as_it_was() {
    let mut machine = Interpreter::new(program_of("+]"));
    assert_eq!(machine.step(""), Ok(Progress::Advanced));
    let error = machine.step("").err().unwrap();
    assert_eq!(error.kind, Failure::UnmatchedJumpBack);
    assert_eq!(machine.program_counter(), 1);
    assert_eq!(machine.tape()[0], 1);
    assert_eq!(machine.pointer(), 0);
    assert!(!machine.finished());
    assert_eq!(machine.step("").err(), Some(error));
}

#[test]
fn bitwise_and_on_the_first_cell_is_an_error() {
    let error = run("&").err().unwrap();
    assert_eq!(error.kind, Failure::NotEnoughOperands);
    assert_eq!(error.token, Token { intrinsic: Intrinsic::BitwiseAnd, position: Loc { line: 1, column: 1 } });
    assert_eq!(error.message(), "Not enough operands for And operation.");
}

#[test]
fn bitwise_or_on_the_first_cell_is_an_error() {
    let error = run("++|").err().unwrap();
    assert_eq!(error.kind, Failure::NotEnoughOperands);
    assert_eq!(error.token, Token { intrinsic: Intrinsic::BitwiseOr, position: Loc { line: 1, column: 3 } });
    assert_eq!(error.message(), "Not enough operands for Or operation.");
}

#[test]
fn bitwise_and_stores_its_result_in_a_new_cell() {
    let machine = run("+++++>+++&").unwrap();
    assert_eq!(&machine.tape()[..4], &[5, 3, 1, 0]);
    assert_eq!(machine.pointer(), 2);
}

#[test]
fn bitwise_or_stores_its_result_in_a_new_cell() {
    let machine = run("+++++>+++|").unwrap();
    assert_eq!(&machine.tape()[..4], &[5, 3, 7, 0]);
    assert_eq!(machine.pointer(), 2);
}

#[test]
fn bitwise_not_stores_the_complement_in_a_new_cell() {
    let machine = run("!").unwrap();
    assert_eq!(&machine.tape()[..3], &[0, -1, 0]);
    assert_eq!(machine.pointer(), 1);
    let machine = run("+++!").unwrap();
    assert_eq!(&machine.tape()[..3], &[3, -4, 0]);
    let machine = run("!!").unwrap();
    assert_eq!(&machine.tape()[..3], &[0, -1, 0]);
    assert_eq!(machine.pointer(), 2);
}

#[test]
fn bitwise_results_are_not_brought_into_byte_range() {
    let machine = run("++>!&#").unwrap();
    assert_eq!(&machine.tape()[..4], &[2, 0, -1, 0]);
    assert_eq!(machine.output(), "0");
    let machine = run("!>|#").unwrap();
    assert_eq!(&machine.tape()[..4], &[0, -1, 0, -1]);
    assert_eq!(machine.output(), "-1");
}

#[test]
fn result_beyond_the_tape_is_a_segmentation_fault() {
    let error = run(&(">".repeat(999) + "!")).err().unwrap();
    assert_eq!(error.kind, Failure::SegmentationFault);
    assert_eq!(error.token.intrinsic, Intrinsic::BitwiseNot);
    assert_eq!(error.token.position, Loc { line: 1, column: 1000 });
    assert_eq!(error.message(), "Segmentation Fault.");
    let error = run(&(">".repeat(999) + "&")).err().unwrap();
    assert_eq!(error.kind, Failure::SegmentationFault);
    let error = run(&(">".repeat(999) + "|")).err().unwrap();
    assert_eq!(error.kind, Failure::SegmentationFault);
    let machine = run(&(">".repeat(998) + "!")).unwrap();
    assert_eq!(machine.pointer(), 999);
    assert_eq!(machine.tape()[999], -1);
}

#[test]
fn runtime_error_report_gives_place_and_words() {
    let error = run("+\n+]").err().unwrap();
    assert_eq!(error.message(), "Closing iteration token missing matching opening token.");
    assert_eq!(error.report(), "2:2 Closing iteration token missing matching opening token.");
    let error = run("&").err().unwrap();
    assert_eq!(error.report(), "1:1 Not enough operands for And operation.");
}

#[test]
fn output_int_writes_the_number() {
    let machine = run(&("+".repeat(65) + "#")).unwrap();
    assert_eq!(machine.output(), "65");
    let machine = run("#+#").unwrap();
    assert_eq!(machine.output(), "01");
    let machine = run("-#").unwrap();
    assert_eq!(machine.output(), "255");
}

#[test]
fn output_char_writes_the_character() {
    let machine = run(&("+".repeat(65) + ".")).unwrap();
    assert_eq!(machine.output(), "A");
    let machine = run(&("+".repeat(65) + ".+.#")).unwrap();
    assert_eq!(machine.output(), "AB66");
    let machine = run(".").unwrap();
    assert_eq!(machine.output(), "\0");
}

#[test]
fn output_char_skips_what_is_no_code_point() {
    let machine = run("!.").unwrap();
    assert_eq!(machine.tape()[1], -1);
    assert_eq!(machine.output(), "");
    assert!(machine.finished());
    let machine = run_with_input(",.", &["\u{10FFFF}"]).unwrap();
    assert_eq!(machine.output(), "\u{10FFFF}");
}

#[test]
fn input_stores_the_code_point() {
    let mut machine = Interpreter::new(program_of(","));
    assert!(machine.needs_input());
    assert_eq!(machine.step("A\n"), Ok(Progress::Advanced));
    assert_eq!(machine.tape()[0], 65);
    assert!(machine.finished());
    assert!(!machine.needs_input());
    let machine = run_with_input(",>,", &["  z \r\n", "\u{20AC}\n"]).unwrap();
    assert_eq!(&machine.tape()[..2], &[122, 0x20AC]);
}

#[test]
fn input_that_is_not_one_character_is_rejected() {
    let mut machine = Interpreter::new(program_of("+++,#"));
    for _ in 0..3 {
        assert_eq!(machine.step("x"), Ok(Progress::Advanced));
    }
    assert_eq!(machine.tape()[0], 3);
    assert!(machine.needs_input());
    assert_eq!(machine.step("ab\n"), Ok(Progress::InputRejected));
    assert_eq!(machine.tape()[0], 3);
    assert_eq!(machine.program_counter(), 4);
    assert_eq!(machine.step(""), Ok(Progress::Advanced));
    assert_eq!(machine.output(), "3");
    let mut machine = Interpreter::new(program_of(",,"));
    assert_eq!(machine.step("\n"), Ok(Progress::InputRejected));
    assert_eq!(machine.step(""), Ok(Progress::InputRejected));
    assert_eq!(machine.tape()[0], 0);
    assert!(machine.finished());
}

#[test]
fn input_line_is_ignored_by_other_instructions() {
    let mut machine = Interpreter::new(program_of("+"));
    assert!(!machine.needs_input());
    assert_eq!(machine.step("ab"), Ok(Progress::Advanced));
    assert_eq!(machine.tape()[0], 1);
}

#[test]
fn echo_program_writes_what_it_reads() {
    let machine = run_with_input(",.,.#", &["h", "i"]).unwrap();
    assert_eq!(machine.output(), "hi105");
}

#[test]
fn hello_program_writes_hello() {
    let text = "++++++++[>++++[>++>+++>+++>+<<<<-]>+>+>->>+[<]<-]>>.>---.+++++++..+++.";
    let machine = run(text).unwrap();
    assert_eq!(machine.output(), &simulated_output(text));
    assert_eq!(machine.output().as_bytes(), &[72, 101, 108, 108, 111]);
    assert_eq!(&machine.tape()[..8], &[0, 0, 72, 111, 88, 32, 8, 0]);
    assert_eq!(machine.pointer(), 3);
}

#[test]
fn hello_world_program_writes_the_whole_greeting() {
    let text = "++++++++[>++++[>++>+++>+++>+<<<<-]>+>+>->>+[<]<-]>>.>---.+++++++..+++.>>.<-.<.+++.------.--------.>>+.>++.";
    let machine = run(text).unwrap();
    assert_eq!(machine.output(), &simulated_output(text));
    assert_eq!(machine.output(), "Hello World!\n");
}

#[test]
fn loop_left_open_at_the_end_is_no_error() {
    let machine = run("+[").unwrap();
    assert!(machine.finished());
    assert_eq!(machine.tape()[0], 1);
}

#[test]
fn output_written_before_an_error_is_kept() {
    let mut machine = Interpreter::new(program_of(&("+".repeat(65) + ".]")));
    for _ in 0..66 {
        assert_eq!(machine.step(""), Ok(Progress::Advanced));
    }
    assert_eq!(machine.output(), "A");
    assert!(machine.step("").is_err());
    assert_eq!(machine.output(), "A");
}

#[test]
fn run_goes_to_the_end_of_the_program() {
    let mut machine = Interpreter::new(program_of("+++>++"));
    assert_eq!(machine.run(100), Ok(()));
    assert!(machine.finished());
    assert_eq!(&machine.tape()[..3], &[3, 2, 0]);
    assert_eq!(machine.program_counter(), 6);
    assert_eq!(machine.run(100), Ok(()));
    assert_eq!(machine.program_counter(), 6);
}

#[test]
fn run_stops_at_its_limit() {
    let mut machine = Interpreter::new(program_of("+++"));
    assert_eq!(machine.run(2), Ok(()));
    assert!(!machine.finished());
    assert!(!machine.needs_input());
    assert_eq!(machine.program_counter(), 2);
    assert_eq!(machine.tape()[0], 2);
    assert_eq!(machine.run(0), Ok(()));
    assert_eq!(machine.program_counter(), 2);
    assert_eq!(machine.run(1), Ok(()));
    assert!(machine.finished());
    assert_eq!(machine.tape()[0], 3);
}

#[test]
fn run_stops_before_an_input_instruction() {
    let mut machine = Interpreter::new(program_of("+,+#"));
    assert_eq!(machine.run(100), Ok(()));
    assert!(machine.needs_input());
    assert_eq!(machine.program_counter(), 1);
    assert_eq!(machine.tape()[0], 1);
    assert_eq!(machine.run(100), Ok(()));
    assert_eq!(machine.program_counter(), 1);
    assert_eq!(machine.step("a\n"), Ok(Progress::Advanced));
    assert_eq!(machine.run(100), Ok(()));
    assert!(machine.finished());
    assert_eq!(machine.output(), "98");
}

#[test]
fn run_stops_at_a_fatal_error() {
    let mut machine = Interpreter::new(program_of("++.]+"));
    let error = machine.run(100).err().unwrap();
    assert_eq!(error.kind, Failure::UnmatchedJumpBack);
    assert_eq!(error.token.position, Loc { line: 1, column: 4 });
    assert_eq!(machine.program_counter(), 3);
    assert_eq!(machine.tape()[0], 2);
    assert_eq!(machine.output(), "\u{2}");
    assert_eq!(machine.run(100).err(), Some(error));
}

#[test]
fn run_executes_loops() {
    let mut machine = Interpreter::new(program_of("+++[->+<]"));
    assert_eq!(machine.run(18), Ok(()));
    assert!(!machine.finished());
    assert_eq!(machine.run(1), Ok(()));
    assert!(machine.finished());
    assert_eq!(&machine.tape()[..3], &[0, 3, 0]);
    let text = "++++++++[>++++[>++>+++>+++>+<<<<-]>+>+>->>+[<]<-]>>.>---.+++++++..+++.";
    let mut machine = Interpreter::new(program_of(text));
    assert_eq!(machine.run(usize::MAX), Ok(()));
    assert!(machine.finished());
    assert_eq!(machine.output(), "Hello");
}

#[test]
fn closing_text_after_a_normal_end_is_the_output() {
    let machine = run(&("+".repeat(65) + ".#")).unwrap();
    assert_eq!(machine.closing_text(None), "A65");
    let machine = run("").unwrap();
    assert_eq!(machine.closing_text(None), "");
}

#[test]
fn closing_text_after_a_fatal_error_drops_the_output() {
    let mut machine = Interpreter::new(program_of(&("+".repeat(65) + ".]")));
    let error = machine.run(1000).err().unwrap();
    assert_eq!(machine.output(), "A");
    assert_eq!(
        machine.closing_text(Some(error)),
        "1:67 Closing iteration token missing matching opening token."
    );
    assert_eq!(machine.closing_text(Some(error)), error.report());
    assert_eq!(machine.output(), "A");
}
