//! The interpreter: a token sequence executed on a tape of integer cells.
//!
//! The meaning of one instruction is the spec function [`execute`], on the
//! mathematical [`Machine`]; [`advance`] is the meaning of a stretch of the
//! program that reads no input. [`Interpreter`] is the executable machine:
//! [`Interpreter::step`] is proved to do what `execute` says, and
//! [`Interpreter::run`] what `advance` says. Reading input and showing
//! output are left to the caller, who hands in a line of input with the
//! step that executes a `,` and collects the output text at the end.
use vstd::prelude::*;
use crate::lexer::{Intrinsic, Token};
use crate::stack::LoopStack;
use crate::text::{decimal, is_scalar_value, parse_char, push_decimal, push_text, single_char};

verus! {

/// The number of cells of the tape.
pub const TAPE_SIZE: usize = 1000;

/// Why a run was aborted.
#[derive(Debug, Clone, Copy, PartialEq, Eq, Structural)]
pub enum Failure {
    /// A `]` asked to repeat a loop that no `[` has opened.
    UnmatchedJumpBack,
    /// `&` or `|` on the first cell, which has no cell before it.
    NotEnoughOperands,
    /// A result needs a cell beyond the end of the tape.
    SegmentationFault,
}

/// A fatal error of a run: what went wrong, and at which token.
#[derive(Debug, Clone, Copy, PartialEq, Eq, Structural)]
pub struct RuntimeError {
    pub kind: Failure,
    pub token: Token,
}

/// The words for a runtime error.
pub open spec fn message_text(e: RuntimeError) -> Seq<char> {
    match e.kind {
        Failure::UnmatchedJumpBack => "Closing iteration token missing matching opening token."@,
        Failure::NotEnoughOperands => if e.token.intrinsic == Intrinsic::BitwiseOr {
            "Not enough operands for Or operation."@
        } else {
            "Not enough operands for And operation."@
        },
        Failure::SegmentationFault => "Segmentation Fault."@,
    }
}

/// The report on a runtime error: line, colon, column, a space, the words.
pub open spec fn failure_text(e: RuntimeError) -> Seq<char> {
    decimal(e.token.position.line as int) + ":"@ + decimal(e.token.position.column as int) + " "@
        + message_text(e)
}

impl RuntimeError {
    /// The words for this error.
    pub fn message(&self) -> (text: &'static str)
        ensures
            text@ == message_text(*self),
    {
        match self.kind {
            Failure::UnmatchedJumpBack => "Closing iteration token missing matching opening token.",
            Failure::NotEnoughOperands => match self.token.intrinsic {
                Intrinsic::BitwiseOr => "Not enough operands for Or operation.",
                _ => "Not enough operands for And operation.",
            },
            Failure::SegmentationFault => "Segmentation Fault.",
        }
    }

    /// The report as text, ready to be shown.
    pub fn report(&self) -> (text: String)
        ensures
            text@ == failure_text(*self),
    {
        let mut text = String::new();
        push_decimal(&mut text, self.token.position.line);
        push_text(&mut text, ":");
        push_decimal(&mut text, self.token.position.column);
        push_text(&mut text, " ");
        push_text(&mut text, self.message());
        text
    }
}

/// The state of a run.
pub struct Machine {
    /// The cells.
    pub tape: Seq<i32>,
    /// The index of the current cell.
    pub pointer: int,
    /// The index of the next token to execute.
    pub counter: int,
    /// The positions of the `[` of the loops that are open, outermost first.
    pub loops: Seq<usize>,
    /// The text written so far.
    pub output: Seq<char>,
}

/// The state in which every run begins: all cells zero, the pointer on the
/// first cell, the first token next, no loop open, nothing written.
pub open spec fn initial() -> Machine {
    Machine {
        tape: Seq::new(TAPE_SIZE as nat, |i: int| 0i32),
        pointer: 0,
        counter: 0,
        loops: Seq::empty(),
        output: Seq::empty(),
    }
}

/// The states that a run of `program` can be in.
pub open spec fn valid(m: Machine, program: Seq<Token>) -> bool {
    &&& m.tape.len() == TAPE_SIZE
    &&& 0 <= m.pointer < TAPE_SIZE
    &&& 0 <= m.counter <= program.len()
    &&& forall|k: int| 0 <= k < m.loops.len() ==> #[trigger] m.loops[k] < program.len()
}

/// Whether the run is over: every token has been executed.
pub open spec fn halted(m: Machine, program: Seq<Token>) -> bool {
    m.counter >= program.len()
}

/// A cell after `+`: one more, and 0 once 255 is reached.
pub open spec fn incremented(v: i32) -> i32 {
    if v >= 255 {
        0
    } else {
        (v + 1) as i32
    }
}

/// A cell after `-`: one less, and 255 where the cell is below 1.
pub open spec fn decremented(v: i32) -> i32 {
    if v < 1 {
        255
    } else {
        (v - 1) as i32
    }
}

/// The machine `m` with the value `v` stored in a new cell behind the
/// current one, which becomes the current cell; an error where the tape has
/// no such cell.
pub open spec fn allocate(m: Machine, token: Token, v: i32) -> Result<Machine, RuntimeError> {
    if m.pointer + 1 >= TAPE_SIZE {
        Err(RuntimeError { kind: Failure::SegmentationFault, token })
    } else {
        Ok(
            Machine {
                tape: m.tape.update(m.pointer + 1, v),
                pointer: m.pointer + 1,
                counter: m.counter + 1,
                ..m
            },
        )
    }
}

/// What executing `token` does to the machine `m`, where `line` is the line
/// of input at hand (only `,` looks at it).
pub open spec fn execute(m: Machine, token: Token, line: Seq<char>) -> Result<
    Machine,
    RuntimeError,
> {
    let cell = m.tape[m.pointer];
    let next = m.counter + 1;
    match token.intrinsic {
        Intrinsic::Increment => Ok(
            Machine { tape: m.tape.update(m.pointer, incremented(cell)), counter: next, ..m },
        ),
        Intrinsic::Decrement => Ok(
            Machine { tape: m.tape.update(m.pointer, decremented(cell)), counter: next, ..m },
        ),
        Intrinsic::ShiftLeft => Ok(
            Machine {
                pointer: if m.pointer < 1 {
                    0
                } else {
                    m.pointer - 1
                },
                counter: next,
                ..m
            },
        ),
        Intrinsic::ShiftRight => Ok(
            Machine {
                pointer: if m.pointer + 1 < TAPE_SIZE {
                    m.pointer + 1
                } else {
                    m.pointer
                },
                counter: next,
                ..m
            },
        ),
        Intrinsic::Input => match single_char(line) {
            Some(c) => Ok(Machine { tape: m.tape.update(m.pointer, c as i32), counter: next, ..m }),
            None => Ok(Machine { counter: next, ..m }),
        },
        Intrinsic::OutputChar => if is_scalar_value(cell as int) {
            Ok(Machine { output: m.output.push(cell as char), counter: next, ..m })
        } else {
            Ok(Machine { counter: next, ..m })
        },
        Intrinsic::OutputInt => Ok(
            Machine { output: m.output + decimal(cell as int), counter: next, ..m },
        ),
        Intrinsic::JumpOver => Ok(
            Machine { loops: m.loops.push(m.counter as usize), counter: next, ..m },
        ),
        Intrinsic::JumpBack => if cell != 0 {
            if m.loops.len() > 0 {
                Ok(Machine { counter: m.loops.last() + 1, ..m })
            } else {
                Err(RuntimeError { kind: Failure::UnmatchedJumpBack, token })
            }
        } else if m.loops.len() > 0 {
            Ok(Machine { loops: m.loops.drop_last(), counter: next, ..m })
        } else {
            Ok(Machine { counter: next, ..m })
        },
        Intrinsic::BitwiseAnd => if m.pointer < 1 {
            Err(RuntimeError { kind: Failure::NotEnoughOperands, token })
        } else {
            allocate(m, token, m.tape[m.pointer - 1] & cell)
        },
        Intrinsic::BitwiseOr => if m.pointer < 1 {
            Err(RuntimeError { kind: Failure::NotEnoughOperands, token })
        } else {
            allocate(m, token, m.tape[m.pointer - 1] | cell)
        },
        Intrinsic::BitwiseNot => allocate(m, token, !cell),
    }
}

/// Whether the next step executes a `,`, and so needs a line of input.
pub open spec fn awaits_input(m: Machine, program: Seq<Token>) -> bool {
    !halted(m, program) && program[m.counter].intrinsic == Intrinsic::Input
}

/// Where a run of `program` from `m` stands after at most `steps` steps, none
/// of which reads input: the machine, and the fatal error that stopped it,
/// if one did.
///
/// The run stops before `steps` steps are made where the program ends, where
/// the next token is a `,`, and where a step fails; the machine is then the
/// one in which that happened.
pub open spec fn advance(m: Machine, program: Seq<Token>, steps: nat) -> (
    Machine,
    Option<RuntimeError>,
)
    decreases steps,
{
    if steps == 0 || halted(m, program) || awaits_input(m, program) {
        (m, None)
    } else {
        match execute(m, program[m.counter], Seq::empty()) {
            Err(e) => (m, Some(e)),
            Ok(next) => advance(next, program, (steps - 1) as nat),
        }
    }
}

/// What is shown when a run is over. After a run that reached its end it is
/// the text that the program wrote. After a fatal error it is the report on
/// that error alone: what the program had written until then is dropped.
pub open spec fn closing_text(m: Machine, error: Option<RuntimeError>) -> Seq<char> {
    match error {
        None => m.output,
        Some(e) => failure_text(e),
    }
}

/// Whether `token`, given `line` as input, finds no character to store.
pub open spec fn rejects(token: Token, line: Seq<char>) -> bool {
    token.intrinsic == Intrinsic::Input && single_char(line) is None
}

/// What a step did.
#[derive(Debug, Clone, Copy, PartialEq, Eq, Structural)]
pub enum Progress {
    /// Nothing: the run was over already.
    Halted,
    /// One token was executed.
    Advanced,
    /// One `,` was executed, and the line of input was not one character:
    /// the cell is as before, and the user is owed a warning.
    InputRejected,
}

/// The code point of a character, as a cell holds it.
fn code_point(c: char) -> (v: i32)
    ensures
        v == c as i32,
{
    let code: u32 = c as u32;
    code as i32
}

/// The executable machine, together with the program it runs.
pub struct Interpreter {
    program: Vec<Token>,
    tape: Vec<i32>,
    pointer: usize,
    program_counter: usize,
    loop_stack: LoopStack<usize>,
    stdout: String,
}

impl View for Interpreter {
    type V = Machine;

    closed spec fn view(&self) -> Machine {
        Machine {
            tape: self.tape@,
            pointer: self.pointer as int,
            counter: self.program_counter as int,
            loops: self.loop_stack@,
            output: self.stdout@,
        }
    }
}

impl Interpreter {
    /// The program that this interpreter runs.
    pub closed spec fn program(&self) -> Seq<Token> {
        self.program@
    }

    /// The invariant of an interpreter: its state is one that a run of its
    /// program can be in.
    pub open spec fn wf(&self) -> bool {
        valid(self@, self.program())
    }

    /// An interpreter about to run `program` from its first token, on a tape
    /// of zeros.
    pub fn new(program: Vec<Token>) -> (i: Self)
        ensures
            i.wf(),
            i.program() == program@,
            i@ == initial(),
    {
        let mut tape: Vec<i32> = Vec::new();
        while tape.len() < TAPE_SIZE
            invariant
                tape.len() <= TAPE_SIZE,
                forall|k: int| 0 <= k < tape.len() ==> tape@[k] == 0i32,
            decreases TAPE_SIZE - tape.len(),
        {
            tape.push(0);
        }
        assert(tape@ == initial().tape);
        Interpreter {
            program,
            tape,
            pointer: 0,
            program_counter: 0,
            loop_stack: LoopStack::new(),
            stdout: String::new(),
        }
    }

    /// Whether the run is over.
    pub fn finished(&self) -> (b: bool)
        ensures
            b == halted(self@, self.program()),
    {
        self.program_counter >= self.program.len()
    }

    /// Whether the next step executes a `,` and so looks at its line of input.
    pub fn needs_input(&self) -> (b: bool)
        ensures
            b == awaits_input(self@, self.program()),
    {
        self.program_counter < self.program.len() && matches!(
            self.program[self.program_counter].intrinsic,
            Intrinsic::Input
        )
    }

    /// The text written so far.
    pub fn output(&self) -> (text: &String)
        ensures
            text@ == self@.output,
    {
        &self.stdout
    }

    /// The text to show when the run is over, `error` being the fatal error
    /// that ended it, if one did: the output of the run, or the report on
    /// the error without the output.
    pub fn closing_text(&self, error: Option<RuntimeError>) -> (text: String)
        ensures
            text@ == closing_text(self@, error),
    {
        match error {
            None => self.stdout.clone(),
            Some(e) => e.report(),
        }
    }

    /// The cells of the tape.
    pub fn tape(&self) -> (cells: &Vec<i32>)
        ensures
            cells@ == self@.tape,
    {
        &self.tape
    }

    /// The index of the current cell.
    pub fn pointer(&self) -> (p: usize)
        ensures
            p == self@.pointer,
    {
        self.pointer
    }

    /// The index of the token that the next step executes.
    pub fn program_counter(&self) -> (pc: usize)
        ensures
            pc == self@.counter,
    {
        self.program_counter
    }

    /// Stores `value` in a new cell behind the current one and moves there.
    fn allocate(&mut self, token: Token, value: i32) -> (r: Result<Progress, RuntimeError>)
        requires
            old(self).wf(),
            !halted(old(self)@, old(self).program()),
        ensures
            final(self).wf(),
            final(self).program() == old(self).program(),
            match r {
                Ok(p) => p == Progress::Advanced && allocate(old(self)@, token, value) == Ok::<
                    Machine,
                    RuntimeError,
                >(final(self)@),
                Err(e) => allocate(old(self)@, token, value) == Err::<Machine, RuntimeError>(e)
                    && final(self)@ == old(self)@,
            },
    {
        if self.pointer + 1 >= TAPE_SIZE {
            return Err(RuntimeError { kind: Failure::SegmentationFault, token });
        }
        assert(self.program_counter < self.program.len());
        self.pointer += 1;
        self.tape.set(self.pointer, value);
        self.program_counter += 1;
        Ok(Progress::Advanced)
    }

    /// Executes the next token, with `line` as the line of input at hand.
    ///
    /// When the run is over nothing happens. Otherwise the state afterwards
    /// is the one that `execute` gives; a fatal error leaves the state as it
    /// was, with the failing token still next.
    pub fn step(&mut self, line: &str) -> (r: Result<Progress, RuntimeError>)
        requires
            old(self).wf(),
        ensures
            final(self).wf(),
            final(self).program() == old(self).program(),
            halted(old(self)@, old(self).program()) ==> r == Ok::<Progress, RuntimeError>(
                Progress::Halted,
            ) && final(self)@ == old(self)@,
            !halted(old(self)@, old(self).program()) ==> ({
                let token = old(self).program()[old(self)@.counter];
                match r {
                    Ok(p) => {
                        &&& execute(old(self)@, token, line@) == Ok::<Machine, RuntimeError>(
                            final(self)@,
                        )
                        &&& p == if rejects(token, line@) {
                            Progress::InputRejected
                        } else {
                            Progress::Advanced
                        }
                    },
                    Err(e) => {
                        &&& execute(old(self)@, token, line@) == Err::<Machine, RuntimeError>(e)
                        &&& final(self)@ == old(self)@
                    },
                }
            }),
    {
        if self.program_counter >= self.program.len() {
            return Ok(Progress::Halted);
        }
        let token = self.program[self.program_counter];
        let cell = self.tape[self.pointer];
        match token.intrinsic {
            Intrinsic::Increment => {
                let value = if cell >= 255 {
                    0
                } else {
                    cell + 1
                };
                self.tape.set(self.pointer, value);
            },
            Intrinsic::Decrement => {
                let value = if cell < 1 {
                    255
                } else {
                    cell - 1
                };
                self.tape.set(self.pointer, value);
            },
            Intrinsic::ShiftLeft => {
                if self.pointer >= 1 {
                    self.pointer -= 1;
                }
            },
            Intrinsic::ShiftRight => {
                if self.pointer + 1 < TAPE_SIZE {
                    self.pointer += 1;
                }
            },
            Intrinsic::Input => {
                match parse_char(line) {
                    Some(c) => {
                        self.tape.set(self.pointer, code_point(c));
                    },
                    None => {
                        self.program_counter += 1;
                        return Ok(Progress::InputRejected);
                    },
                }
            },
            Intrinsic::OutputChar => {
                if cell >= 0 {
                    match char::from_u32(cell as u32) {
                        Some(c) => {
                            self.stdout.push(c);
                        },
                        None => {},
                    }
                }
            },
            Intrinsic::OutputInt => {
                push_decimal(&mut self.stdout, cell);
            },
            Intrinsic::JumpOver => {
                self.loop_stack.push(self.program_counter);
                assert(self.wf());
            },
            Intrinsic::JumpBack => {
                if cell != 0 {
                    match self.loop_stack.peek() {
                        Some(start) => {
                            self.program_counter = *start + 1;
                            return Ok(Progress::Advanced);
                        },
                        None => {
                            return Err(RuntimeError { kind: Failure::UnmatchedJumpBack, token });
                        },
                    }
                } else {
                    self.loop_stack.pop();
                    assert(self.wf());
                }
            },
            Intrinsic::BitwiseAnd => {
                if self.pointer < 1 {
                    return Err(RuntimeError { kind: Failure::NotEnoughOperands, token });
                }
                let value = self.tape[self.pointer - 1] & cell;
                return self.allocate(token, value);
            },
            Intrinsic::BitwiseOr => {
                if self.pointer < 1 {
                    return Err(RuntimeError { kind: Failure::NotEnoughOperands, token });
                }
                let value = self.tape[self.pointer - 1] | cell;
                return self.allocate(token, value);
            },
            Intrinsic::BitwiseNot => {
                return self.allocate(token, !cell);
            },
        }
        self.program_counter += 1;
        Ok(Progress::Advanced)
    }

    /// Runs the program on, for at most `limit` steps, as far as it goes
    /// without input: to its end, to the next `,`, or to a fatal error.
    ///
    /// The state afterwards is the one that `advance` gives. After `Ok` the
    /// caller finds out with `finished` and `needs_input` why the run
    /// stopped; if neither holds, the `limit` was reached.
    pub fn run(&mut self, limit: usize) -> (r: Result<(), RuntimeError>)
        requires
            old(self).wf(),
        ensures
            final(self).wf(),
            final(self).program() == old(self).program(),
            advance(old(self)@, old(self).program(), limit as nat) == (
                final(self)@,
                match r {
                    Ok(_) => None,
                    Err(e) => Some(e),
                },
            ),
    {
        let mut left: usize = limit;
        while left > 0 && !self.finished() && !self.needs_input()
            invariant
                self.wf(),
                self.program() == old(self).program(),
                advance(old(self)@, old(self).program(), limit as nat) == advance(
                    self@,
                    self.program(),
                    left as nat,
                ),
            decreases left,
        {
            proof {
                reveal_strlit("");
                assert(""@ == Seq::<char>::empty());
            }
            match self.step("") {
                Ok(_) => {},
                Err(e) => {
                    return Err(e);
                },
            }
            left = left - 1;
        }
        Ok(())
    }
}

} // verus!
