//! What holds of the interpreter in every state.
use vstd::prelude::*;
use crate::interpreter::{
    advance, decremented, execute, incremented, Failure, Machine, RuntimeError, TAPE_SIZE,
};
use crate::lexer::{instructions, Intrinsic, Token};
use crate::text::{decimal, digits};

verus! {

/// `+` on a cell that holds 255 leaves 0 in it.
pub proof fn increment_wraps(m: Machine, token: Token, line: Seq<char>)
    requires
        token.intrinsic == Intrinsic::Increment,
        0 <= m.pointer < m.tape.len(),
        m.tape[m.pointer] == 255,
    ensures
        execute(m, token, line) matches Ok(next) && next.tape[m.pointer] == 0,
{
}

/// `-` on a cell that holds 0 leaves 255 in it.
pub proof fn decrement_wraps(m: Machine, token: Token, line: Seq<char>)
    requires
        token.intrinsic == Intrinsic::Decrement,
        0 <= m.pointer < m.tape.len(),
        m.tape[m.pointer] == 0,
    ensures
        execute(m, token, line) matches Ok(next) && next.tape[m.pointer] == 255,
{
}

/// `+` and `-` keep a cell that holds a byte within the range of a byte.
pub proof fn byte_range_is_kept(v: i32)
    requires
        0 <= v <= 255,
    ensures
        0 <= incremented(v) <= 255,
        0 <= decremented(v) <= 255,
{
}

/// `<` on the first cell stays on the first cell.
pub proof fn shift_left_clamps(m: Machine, token: Token, line: Seq<char>)
    requires
        token.intrinsic == Intrinsic::ShiftLeft,
        m.pointer == 0,
    ensures
        execute(m, token, line) matches Ok(next) && next.pointer == 0,
{
}

/// `>` on the last cell stays on the last cell.
pub proof fn shift_right_clamps(m: Machine, token: Token, line: Seq<char>)
    requires
        token.intrinsic == Intrinsic::ShiftRight,
        m.pointer == TAPE_SIZE - 1,
    ensures
        execute(m, token, line) matches Ok(next) && next.pointer == TAPE_SIZE - 1,
{
}

/// `]` on a cell that is not zero, while no loop is open, is a fatal error
/// that names the `]` itself.
pub proof fn unmatched_jump_back_fails(m: Machine, token: Token, line: Seq<char>)
    requires
        token.intrinsic == Intrinsic::JumpBack,
        m.loops.len() == 0,
        m.tape[m.pointer] != 0,
    ensures
        execute(m, token, line) == Err::<Machine, RuntimeError>(
            RuntimeError { kind: Failure::UnmatchedJumpBack, token },
        ),
{
}

/// `&` and `|` on the first cell are fatal errors: there is no cell before
/// it to take the other operand from.
pub proof fn missing_operand_fails(m: Machine, token: Token, line: Seq<char>)
    requires
        token.intrinsic == Intrinsic::BitwiseAnd || token.intrinsic == Intrinsic::BitwiseOr,
        m.pointer == 0,
    ensures
        execute(m, token, line) == Err::<Machine, RuntimeError>(
            RuntimeError { kind: Failure::NotEnoughOperands, token },
        ),
{
}

/// `#` on a cell that holds 65 writes the two digits `65`, not the letter
/// with that code.
pub proof fn output_int_writes_digits(m: Machine, token: Token, line: Seq<char>)
    requires
        token.intrinsic == Intrinsic::OutputInt,
        m.tape[m.pointer] == 65,
    ensures
        execute(m, token, line) matches Ok(next) && next.output == m.output + seq!['6', '5'],
{
    reveal_with_fuel(digits, 2);
    assert(decimal(65) == seq!['6', '5']);
}

/// Whether `program` is the loop `[->+<]`.
pub open spec fn is_move_loop(program: Seq<Token>) -> bool {
    instructions(program) == seq![
        Intrinsic::JumpOver,
        Intrinsic::Decrement,
        Intrinsic::ShiftRight,
        Intrinsic::Increment,
        Intrinsic::ShiftLeft,
        Intrinsic::JumpBack,
    ]
}

/// The six tokens of `[->+<]`, one by one.
proof fn lemma_move_loop_tokens(program: Seq<Token>)
    requires
        is_move_loop(program),
    ensures
        program.len() == 6,
        program[0].intrinsic == Intrinsic::JumpOver,
        program[1].intrinsic == Intrinsic::Decrement,
        program[2].intrinsic == Intrinsic::ShiftRight,
        program[3].intrinsic == Intrinsic::Increment,
        program[4].intrinsic == Intrinsic::ShiftLeft,
        program[5].intrinsic == Intrinsic::JumpBack,
{
    let ops = instructions(program);
    assert(ops.len() == 6);
    assert(ops[0] == program[0].intrinsic);
    assert(ops[1] == program[1].intrinsic);
    assert(ops[2] == program[2].intrinsic);
    assert(ops[3] == program[3].intrinsic);
    assert(ops[4] == program[4].intrinsic);
    assert(ops[5] == program[5].intrinsic);
}

/// The rounds of `[->+<]` that are left once the loop has been entered: with
/// `n` in the current cell and `a` in the next, `n` rounds move the `n` over.
proof fn lemma_move_rounds(m: Machine, program: Seq<Token>, n: int, a: int)
    requires
        is_move_loop(program),
        m.tape.len() == TAPE_SIZE,
        0 <= m.pointer,
        m.pointer + 1 < TAPE_SIZE,
        m.counter == 1,
        m.loops.len() > 0,
        m.loops.last() == 0,
        1 <= n,
        0 <= a,
        a + n <= 255,
        m.tape[m.pointer] == n,
        m.tape[m.pointer + 1] == a,
    ensures
        advance(m, program, (5 * n) as nat) == (
            Machine {
                tape: m.tape.update(m.pointer, 0).update(m.pointer + 1, (a + n) as i32),
                counter: 6,
                loops: m.loops.drop_last(),
                ..m
            },
            None::<RuntimeError>,
        ),
    decreases n,
{
    let none = Seq::<char>::empty();
    lemma_move_loop_tokens(program);
    let m1 = execute(m, program[1], none)->Ok_0;
    let m2 = execute(m1, program[2], none)->Ok_0;
    let m3 = execute(m2, program[3], none)->Ok_0;
    let m4 = execute(m3, program[4], none)->Ok_0;
    let m5 = execute(m4, program[5], none)->Ok_0;
    assert(m1.tape == m.tape.update(m.pointer, (n - 1) as i32));
    assert(m3.tape == m1.tape.update(m.pointer + 1, (a + 1) as i32));
    assert(m4.pointer == m.pointer && m4.counter == 5 && m4.tape == m3.tape && m4.loops == m.loops);
    reveal_with_fuel(advance, 6);
    assert(advance(m, program, (5 * n) as nat) == advance(m5, program, (5 * n - 5) as nat));
    if n == 1 {
        assert(m5.tape == m.tape.update(m.pointer, 0).update(m.pointer + 1, (a + n) as i32));
    } else {
        lemma_move_rounds(m5, program, n - 1, a + 1);
        assert(m5.tape.update(m.pointer, 0).update(m.pointer + 1, (a + n) as i32) == m.tape.update(
            m.pointer,
            0,
        ).update(m.pointer + 1, (a + n) as i32));
    }
}

/// The loop `[->+<]`, begun on a cell that holds `n` between 1 and 255 with
/// a zero in the cell after it, moves the `n` over: it ends with zero in the
/// first cell and `n` in the second, all else as it was, after `5 * n + 1`
/// steps.
pub proof fn move_loop_transfers(m: Machine, program: Seq<Token>)
    requires
        is_move_loop(program),
        m.tape.len() == TAPE_SIZE,
        0 <= m.pointer,
        m.pointer + 1 < TAPE_SIZE,
        m.counter == 0,
        1 <= m.tape[m.pointer] <= 255,
        m.tape[m.pointer + 1] == 0,
    ensures
        advance(m, program, (5 * m.tape[m.pointer] + 1) as nat) == (
            Machine {
                tape: m.tape.update(m.pointer, 0).update(m.pointer + 1, m.tape[m.pointer]),
                counter: 6,
                ..m
            },
            None::<RuntimeError>,
        ),
{
    let n = m.tape[m.pointer] as int;
    lemma_move_loop_tokens(program);
    let m0 = execute(m, program[0], Seq::empty())->Ok_0;
    lemma_move_rounds(m0, program, n, 0);
    assert(m0.loops.drop_last() == m.loops);
}

} // verus!
