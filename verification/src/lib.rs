//! A lexer and tape interpreter for a small Brainfuck dialect.
//!
//! Source text is turned into positioned instruction tokens by the
//! [`lexer`]; the [`interpreter`] executes such a token sequence on a
//! fixed-size tape, resolving loops at run time with a [`stack::LoopStack`].
//! [`lexer_laws`] and [`interpreter_laws`] hold what is proved of the two for
//! every source text and every machine state; [`text`] holds the handling of
//! characters and numbers that both share.
pub mod stack;
pub mod text;
pub mod lexer;
pub mod lexer_laws;
pub mod interpreter;
pub mod interpreter_laws;
