//! The lexer: from source text to a sequence of positioned instructions.
//!
//! The source is read byte by byte, every byte taken as the character with
//! that code. What the lexer produces is defined by [`lex`], a small automaton
//! over the bytes; [`Tokenizer`] is the executable scanner that is proved to
//! compute it.
use vstd::prelude::*;
use vstd::utf8::encode_utf8;
use crate::text::{decimal, push_decimal, push_text};

verus! {

/// The instructions of the language.
#[derive(Debug, Clone, Copy, PartialEq, Eq, Structural)]
pub enum Intrinsic {
    ShiftLeft,
    ShiftRight,
    Increment,
    Decrement,
    Input,
    OutputChar,
    OutputInt,
    JumpOver,
    JumpBack,
    BitwiseAnd,
    BitwiseOr,
    BitwiseNot,
}

/// A place in the source text; lines and columns are counted from 1.
#[derive(Debug, Clone, Copy, PartialEq, Eq, Structural)]
pub struct Loc {
    pub line: i32,
    pub column: i32,
}

/// An instruction together with the place of the character that produced it.
#[derive(Debug, Clone, Copy, PartialEq, Eq, Structural)]
pub struct Token {
    pub intrinsic: Intrinsic,
    pub position: Loc,
}

impl Intrinsic {
    /// The source character of an instruction.
    pub open spec fn spec_symbol(self) -> char {
        match self {
            Intrinsic::ShiftLeft => '<',
            Intrinsic::ShiftRight => '>',
            Intrinsic::Increment => '+',
            Intrinsic::Decrement => '-',
            Intrinsic::Input => ',',
            Intrinsic::OutputChar => '.',
            Intrinsic::OutputInt => '#',
            Intrinsic::JumpOver => '[',
            Intrinsic::JumpBack => ']',
            Intrinsic::BitwiseAnd => '&',
            Intrinsic::BitwiseOr => '|',
            Intrinsic::BitwiseNot => '!',
        }
    }

    /// The instruction that a source character stands for, if it stands for one.
    pub open spec fn of_symbol(c: char) -> Option<Intrinsic> {
        if c == '<' {
            Some(Intrinsic::ShiftLeft)
        } else if c == '>' {
            Some(Intrinsic::ShiftRight)
        } else if c == '+' {
            Some(Intrinsic::Increment)
        } else if c == '-' {
            Some(Intrinsic::Decrement)
        } else if c == ',' {
            Some(Intrinsic::Input)
        } else if c == '.' {
            Some(Intrinsic::OutputChar)
        } else if c == '#' {
            Some(Intrinsic::OutputInt)
        } else if c == '[' {
            Some(Intrinsic::JumpOver)
        } else if c == ']' {
            Some(Intrinsic::JumpBack)
        } else if c == '&' {
            Some(Intrinsic::BitwiseAnd)
        } else if c == '|' {
            Some(Intrinsic::BitwiseOr)
        } else if c == '!' {
            Some(Intrinsic::BitwiseNot)
        } else {
            None
        }
    }

    /// The source character of this instruction.
    #[verifier::when_used_as_spec(spec_symbol)]
    pub fn symbol(self) -> (c: char)
        ensures
            c == self.spec_symbol(),
    {
        match self {
            Intrinsic::ShiftLeft => '<',
            Intrinsic::ShiftRight => '>',
            Intrinsic::Increment => '+',
            Intrinsic::Decrement => '-',
            Intrinsic::Input => ',',
            Intrinsic::OutputChar => '.',
            Intrinsic::OutputInt => '#',
            Intrinsic::JumpOver => '[',
            Intrinsic::JumpBack => ']',
            Intrinsic::BitwiseAnd => '&',
            Intrinsic::BitwiseOr => '|',
            Intrinsic::BitwiseNot => '!',
        }
    }

    /// The instruction written as `c`, or `None` for any other character.
    pub fn from_symbol(c: char) -> (r: Option<Intrinsic>)
        ensures
            r == Intrinsic::of_symbol(c),
    {
        match c {
            '<' => Some(Intrinsic::ShiftLeft),
            '>' => Some(Intrinsic::ShiftRight),
            '+' => Some(Intrinsic::Increment),
            '-' => Some(Intrinsic::Decrement),
            ',' => Some(Intrinsic::Input),
            '.' => Some(Intrinsic::OutputChar),
            '#' => Some(Intrinsic::OutputInt),
            '[' => Some(Intrinsic::JumpOver),
            ']' => Some(Intrinsic::JumpBack),
            '&' => Some(Intrinsic::BitwiseAnd),
            '|' => Some(Intrinsic::BitwiseOr),
            '!' => Some(Intrinsic::BitwiseNot),
            _ => None,
        }
    }
}

/// Every instruction is read back from its own character: the character set
/// covers all twelve instructions.
pub proof fn symbol_read_back(i: Intrinsic)
    ensures
        Intrinsic::of_symbol(i.spec_symbol()) == Some(i),
{
}

/// No two characters stand for the same instruction: a character that is read
/// as an instruction is that instruction's own character.
pub proof fn symbol_unique(c: char, i: Intrinsic)
    requires
        Intrinsic::of_symbol(c) == Some(i),
    ensures
        i.spec_symbol() == c,
{
}

/// Newline, carriage return and tab: the characters that are consumed without
/// producing anything. Of the three only the newline starts a new line.
pub open spec fn is_layout(c: char) -> bool {
    c == '\n' || c == '\r' || c == '\t'
}

/// Tells whether `c` is a layout character.
pub fn layout(c: char) -> (b: bool)
    ensures
        b == is_layout(c),
{
    c == '\n' || c == '\r' || c == '\t'
}

/// What the scanner remembers between two bytes.
pub struct ScanState {
    /// Line of the next byte, counted from 1.
    pub line: int,
    /// Column of the next byte, counted from 1.
    pub column: int,
    /// Whether the next byte belongs to a comment.
    pub in_comment: bool,
}

/// The state in which a scan begins.
pub open spec fn start_state() -> ScanState {
    ScanState { line: 1, column: 1, in_comment: false }
}

/// The place that a state stands at.
pub open spec fn place(st: ScanState) -> Loc {
    Loc { line: st.line as i32, column: st.column as i32 }
}

/// The state at the start of the line after the one `st` is on.
pub open spec fn next_line(st: ScanState) -> ScanState {
    ScanState { line: st.line + 1, column: 1, in_comment: false }
}

/// The state one column further on the line that `st` is on.
pub open spec fn next_column(st: ScanState) -> ScanState {
    ScanState { line: st.line, column: st.column + 1, in_comment: false }
}

/// What one byte does to the scan.
pub enum Fed {
    /// The byte produced nothing.
    Skipped(ScanState),
    /// The byte produced a token.
    Emitted(Token, ScanState),
    /// The byte is not part of the language.
    Rejected,
}

/// One step of the scanner, on the character `c` in state `st`.
///
/// A comment lasts up to the next newline. Outside a comment a newline
/// starts a new line, a carriage return or a tab takes up a column and gives
/// nothing, an instruction character gives a token at the current place,
/// any other character opens a comment if it stands in column 1 and is
/// refused elsewhere.
pub open spec fn feed(st: ScanState, c: char) -> Fed {
    if st.in_comment {
        if c == '\n' {
            Fed::Skipped(next_line(st))
        } else {
            Fed::Skipped(st)
        }
    } else if c == '\n' {
        Fed::Skipped(next_line(st))
    } else if is_layout(c) {
        Fed::Skipped(next_column(st))
    } else if let Some(i) = Intrinsic::of_symbol(c) {
        Fed::Emitted(Token { intrinsic: i, position: place(st) }, next_column(st))
    } else if st.column == 1 {
        Fed::Skipped(ScanState { line: st.line, column: 1, in_comment: true })
    } else {
        Fed::Rejected
    }
}

/// The byte at which a scan stopped.
pub struct Fault {
    /// The refused character.
    pub character: char,
    /// Its line and column.
    pub position: Loc,
    /// Its index in the source.
    pub offset: int,
}

/// Scans all of `src`, beginning in state `from`: the tokens in source order
/// and the state after the last byte, or the first refused byte.
pub open spec fn scan(src: Seq<u8>, from: ScanState) -> Result<(Seq<Token>, ScanState), Fault>
    decreases src.len(),
{
    if src.len() == 0 {
        Ok((Seq::empty(), from))
    } else {
        match scan(src.drop_last(), from) {
            Err(fault) => Err(fault),
            Ok((tokens, st)) => match feed(st, src.last() as char) {
                Fed::Skipped(next) => Ok((tokens, next)),
                Fed::Emitted(token, next) => Ok((tokens.push(token), next)),
                Fed::Rejected => Err(
                    Fault {
                        character: src.last() as char,
                        position: place(st),
                        offset: src.len() - 1,
                    },
                ),
            },
        }
    }
}

/// How many characters before the refused one an excerpt shows at most.
pub const CONTEXT_BEFORE: usize = 10;

/// How many characters after the refused one an excerpt shows at most.
pub const CONTEXT_AFTER: usize = 7;

/// The first index at or after `from` that holds a newline, or the length of
/// `src` if there is none: where the line of `from` ends.
pub open spec fn line_stop(src: Seq<u8>, from: int) -> int
    decreases src.len() - from,
{
    if 0 <= from < src.len() && src[from] as char != '\n' {
        line_stop(src, from + 1)
    } else {
        from
    }
}

/// How far the refused character stands from the start of the excerpt: the
/// characters before it on its line, at most `CONTEXT_BEFORE` of them.
pub open spec fn caret_of(position: Loc) -> int {
    if position.column <= 1 {
        0
    } else if position.column - 1 < CONTEXT_BEFORE {
        position.column - 1
    } else {
        CONTEXT_BEFORE as int
    }
}

/// Where the excerpt around the byte at `offset` ends: at the end of its
/// line, or `CONTEXT_AFTER` characters behind it if the line goes on.
pub open spec fn excerpt_end(src: Seq<u8>, offset: int) -> int {
    let stop = line_stop(src, offset + 1);
    if stop < offset + 1 + CONTEXT_AFTER {
        stop
    } else {
        offset + 1 + CONTEXT_AFTER
    }
}

/// The bytes of `src` from `start` up to `end`, each as a character.
pub open spec fn excerpt(src: Seq<u8>, start: int, end: int) -> Seq<char> {
    src.subrange(start, end).map_values(|b: u8| b as char)
}

/// A lexical error as it is reported: the model of [`LexError`].
pub struct Diagnosis {
    /// The refused character.
    pub character: char,
    /// Its line and column.
    pub position: Loc,
    /// Its index in the source.
    pub offset: int,
    /// The part of its line around it.
    pub snippet: Seq<char>,
    /// Its index within `snippet`.
    pub caret: int,
}

/// The report on the fault `f` found in `src`.
pub open spec fn diagnose(src: Seq<u8>, f: Fault) -> Diagnosis {
    let caret = caret_of(f.position);
    Diagnosis {
        character: f.character,
        position: f.position,
        offset: f.offset,
        snippet: excerpt(src, f.offset - caret, excerpt_end(src, f.offset)),
        caret,
    }
}

/// What tokenizing the source bytes `src` gives: all its tokens in source
/// order, or the report on the first character that is not part of the
/// language. There is no partial result.
pub open spec fn lex(src: Seq<u8>) -> Result<Seq<Token>, Diagnosis> {
    match scan(src, start_state()) {
        Ok((tokens, _)) => Ok(tokens),
        Err(fault) => Err(diagnose(src, fault)),
    }
}

/// The bytes that a tokenizer made from `text` and `length` reads: the UTF-8
/// form of `text`, cut off after `length` bytes where it is longer.
pub open spec fn source_window(text: Seq<char>, length: int) -> Seq<u8> {
    let bytes = encode_utf8(text);
    if length <= 0 {
        Seq::empty()
    } else if length >= bytes.len() {
        bytes
    } else {
        bytes.take(length)
    }
}

/// `n` spaces.
pub open spec fn spaces(n: int) -> Seq<char> {
    Seq::new(n as nat, |i: int| ' ')
}

/// The text of a report: the refused character with its place, an empty
/// line, the excerpt, and a caret under the refused character.
pub open spec fn report_text(d: Diagnosis) -> Seq<char> {
    "Unexpected token: "@.push(d.character) + " found at "@ + decimal(d.position.line as int)
        + ":"@ + decimal(d.position.column as int) + "\n\n"@ + d.snippet + "\n"@ + spaces(
        d.caret,
    ).push('^')
}

/// A character of the source that is not part of the language.
#[derive(Debug)]
pub struct LexError {
    /// The refused character.
    pub character: char,
    /// Its line and column.
    pub position: Loc,
    /// Its index among the bytes of the source.
    pub offset: usize,
    /// The part of its line around it.
    pub snippet: String,
    /// Its index within `snippet`.
    pub caret: usize,
}

impl View for LexError {
    type V = Diagnosis;

    open spec fn view(&self) -> Diagnosis {
        Diagnosis {
            character: self.character,
            position: self.position,
            offset: self.offset as int,
            snippet: self.snippet@,
            caret: self.caret as int,
        }
    }
}

impl LexError {
    /// The report as text, ready to be shown.
    pub fn report(&self) -> (text: String)
        ensures
            text@ == report_text(self@),
    {
        let mut text = String::new();
        push_text(&mut text, "Unexpected token: ");
        text.push(self.character);
        push_text(&mut text, " found at ");
        push_decimal(&mut text, self.position.line);
        push_text(&mut text, ":");
        push_decimal(&mut text, self.position.column);
        push_text(&mut text, "\n\n");
        push_text(&mut text, self.snippet.as_str());
        push_text(&mut text, "\n");
        let ghost head = text@;
        let mut n: usize = 0;
        while n < self.caret
            invariant
                n <= self.caret,
                text@ == head + spaces(n as int),
            decreases self.caret - n,
        {
            text.push(' ');
            n = n + 1;
            assert(spaces(n as int) == spaces(n as int - 1).push(' '));
        }
        text.push('^');
        text
    }
}

/// Scanning one byte more: the scan of the first `i + 1` bytes is the scan of
/// the first `i` bytes followed by one step on byte `i`.
pub proof fn lemma_scan_extend(src: Seq<u8>, i: int, from: ScanState)
    requires
        0 <= i < src.len(),
    ensures
        scan(src.take(i + 1), from) == match scan(src.take(i), from) {
            Err(fault) => Err(fault),
            Ok((tokens, st)) => match feed(st, src[i] as char) {
                Fed::Skipped(next) => Ok((tokens, next)),
                Fed::Emitted(token, next) => Ok((tokens.push(token), next)),
                Fed::Rejected => Err(
                    Fault { character: src[i] as char, position: place(st), offset: i },
                ),
            },
        },
{
    assert(src.take(i + 1).drop_last() == src.take(i));
}

/// A scan that has failed on a prefix fails in the same way on the whole.
pub proof fn lemma_fault_persists(src: Seq<u8>, i: int, from: ScanState)
    requires
        0 <= i <= src.len(),
        scan(src.take(i), from) is Err,
    ensures
        scan(src, from) == scan(src.take(i), from),
    decreases src.len() - i,
{
    if i == src.len() {
        assert(src.take(i) == src);
    } else {
        lemma_scan_extend(src, i, from);
        lemma_fault_persists(src, i + 1, from);
    }
}

/// A line does not end before its first newline.
proof fn lemma_line_stop_after(src: Seq<u8>, a: int, b: int)
    requires
        0 <= a <= b <= src.len(),
        forall|k: int| a <= k < b ==> #[trigger] src[k] as char != '\n',
    ensures
        line_stop(src, a) == line_stop(src, b),
        line_stop(src, a) >= b,
    decreases src.len() - a,
{
    if a < b {
        lemma_line_stop_after(src, a + 1, b);
    } else if 0 <= b < src.len() && src[b] as char != '\n' {
        lemma_line_stop_after(src, b + 1, b + 1);
    }
}

/// One character that the scanner has read and that must become a token or
/// an error.
struct Lexeme {
    symbol: char,
    position: Loc,
    offset: usize,
}

/// The scanner: the source text together with a cursor into it and the line
/// and column of the byte under the cursor.
pub struct Tokenizer {
    content: String,
    content_length: usize,
    cursor: usize,
    line: usize,
    column: usize,
}

impl Tokenizer {
    /// The bytes that this tokenizer reads.
    pub closed spec fn source(&self) -> Seq<u8> {
        encode_utf8(self.content@).take(self.content_length as int)
    }

    /// How many bytes of the source have been read.
    pub closed spec fn offset(&self) -> int {
        self.cursor as int
    }

    /// The tokens found in the bytes read so far.
    pub closed spec fn emitted(&self) -> Seq<Token> {
        match scan(self.source().take(self.cursor as int), start_state()) {
            Ok((tokens, _)) => tokens,
            Err(_) => Seq::empty(),
        }
    }

    /// The invariant of a tokenizer: the cursor lies within the source, and
    /// line and column are those that scanning the bytes before the cursor
    /// leads to.
    pub closed spec fn wf(&self) -> bool {
        &&& self.content_length <= encode_utf8(self.content@).len()
        &&& self.content_length <= i32::MAX
        &&& self.cursor <= self.content_length
        &&& 1 <= self.line <= self.cursor + 1
        &&& 1 <= self.column <= self.cursor + 1
        &&& scan(self.source().take(self.cursor as int), start_state()) matches Ok((_, st))
        &&& st.line == self.line
        &&& st.column == self.column
        &&& st.in_comment ==> self.column == 1 && (self.cursor < self.content_length
            ==> self.source()[self.cursor as int] as char == '\n')
    }

    /// A tokenizer for the first `content_length` bytes of `content`, placed
    /// before the first byte. A length below zero counts as zero, one beyond
    /// the end of `content` as the whole of it.
    pub fn new(content: &String, content_length: i32) -> (t: Self)
        ensures
            t.wf(),
            t.source() == source_window(content@, content_length as int),
            t.offset() == 0,
            t.emitted() == Seq::<Token>::empty(),
    {
        let available = content.as_str().as_bytes().len();
        let length: usize = if content_length <= 0 {
            0
        } else if content_length as usize > available {
            available
        } else {
            content_length as usize
        };
        let t = Tokenizer {
            content: content.clone(),
            content_length: length,
            cursor: 0,
            line: 1,
            column: 1,
        };
        proof {
            let bytes = encode_utf8(content@);
            assert(bytes.take(bytes.len() as int) == bytes);
            assert(bytes.take(0) == Seq::<u8>::empty());
            assert(t.source().take(0) == Seq::<u8>::empty());
        }
        t
    }

    /// The character that the byte at index `i` of the source stands for.
    fn character_at(&self, i: usize) -> (c: char)
        requires
            i < self.content_length <= encode_utf8(self.content@).len(),
        ensures
            c == self.source()[i as int] as char,
    {
        self.content.as_str().as_bytes()[i] as char
    }

    /// Reads the next byte.
    ///
    /// At the end of the source nothing changes. A layout character is
    /// consumed: a newline leads to column 1 of the next line, a carriage
    /// return or a tab to the next column. A character in column 1 that is
    /// no instruction opens a comment, which is consumed up to the next
    /// newline; that newline is left for the next call. All these give
    /// `None`. An instruction character is consumed and handed back with its
    /// place. Any other character is handed back too, and left where it is:
    /// the scan cannot go beyond it.
    fn next_lexeme(&mut self) -> (lexeme: Option<Lexeme>)
        requires
            old(self).wf(),
        ensures
            final(self).wf(),
            final(self).source() == old(self).source(),
            final(self).content_length == old(self).content_length,
            old(self).cursor >= old(self).content_length ==> {
                &&& lexeme is None
                &&& final(self).cursor == old(self).cursor
                &&& final(self).line == old(self).line
                &&& final(self).column == old(self).column
                &&& final(self).emitted() == old(self).emitted()
            },
            old(self).cursor < old(self).content_length ==> ({
                let c = old(self).source()[old(self).cursor as int] as char;
                let here = Loc { line: old(self).line as i32, column: old(self).column as i32 };
                if c == '\n' {
                    &&& lexeme is None
                    &&& final(self).cursor == old(self).cursor + 1
                    &&& final(self).line == old(self).line + 1
                    &&& final(self).column == 1
                    &&& final(self).emitted() == old(self).emitted()
                } else if is_layout(c) {
                    &&& lexeme is None
                    &&& final(self).cursor == old(self).cursor + 1
                    &&& final(self).line == old(self).line
                    &&& final(self).column == old(self).column + 1
                    &&& final(self).emitted() == old(self).emitted()
                } else if let Some(i) = Intrinsic::of_symbol(c) {
                    &&& lexeme matches Some(found)
                    &&& found.symbol == c
                    &&& found.position == here
                    &&& found.offset == old(self).cursor
                    &&& 1 <= found.position.column <= found.offset + 1
                    &&& final(self).cursor == old(self).cursor + 1
                    &&& final(self).line == old(self).line
                    &&& final(self).column == old(self).column + 1
                    &&& final(self).emitted() == old(self).emitted().push(
                        Token { intrinsic: i, position: here },
                    )
                } else if old(self).column == 1 {
                    &&& lexeme is None
                    &&& final(self).cursor == line_stop(
                        old(self).source(),
                        old(self).cursor + 1,
                    )
                    &&& old(self).cursor < final(self).cursor
                    &&& final(self).line == old(self).line
                    &&& final(self).column == 1
                    &&& final(self).emitted() == old(self).emitted()
                } else {
                    &&& lexeme matches Some(found)
                    &&& found.symbol == c
                    &&& found.position == here
                    &&& found.offset == old(self).cursor
                    &&& 1 <= found.position.column <= found.offset + 1
                    &&& final(self).cursor == old(self).cursor
                    &&& final(self).line == old(self).line
                    &&& final(self).column == old(self).column
                    &&& scan(old(self).source(), start_state()) == Err::<
                        (Seq<Token>, ScanState),
                        Fault,
                    >(Fault { character: c, position: here, offset: old(self).cursor as int })
                }
            }),
    {
        if self.cursor >= self.content_length {
            return None;
        }
        let symbol = self.character_at(self.cursor);
        proof {
            lemma_scan_extend(self.source(), self.cursor as int, start_state());
        }
        if symbol == '\n' {
            self.cursor += 1;
            self.line += 1;
            self.column = 1;
            return None;
        }
        if layout(symbol) {
            self.cursor += 1;
            self.column += 1;
            return None;
        }
        let known = Intrinsic::from_symbol(symbol).is_some();
        if self.column == 1 && !known {
            self.cursor += 1;
            while self.cursor < self.content_length && self.character_at(self.cursor) != '\n'
                invariant
                    self.content == old(self).content,
                    self.content_length == old(self).content_length,
                    self.line == old(self).line,
                    self.column == 1,
                    old(self).wf(),
                    old(self).cursor < self.cursor <= self.content_length,
                    forall|k: int|
                        old(self).cursor < k < self.cursor ==> #[trigger] self.source()[k] as char
                            != '\n',
                    scan(self.source().take(self.cursor as int), start_state()) == Ok::<
                        (Seq<Token>, ScanState),
                        Fault,
                    >(
                        (
                            old(self).emitted(),
                            ScanState { line: self.line as int, column: 1, in_comment: true },
                        ),
                    ),
                decreases self.content_length - self.cursor,
            {
                proof {
                    lemma_scan_extend(self.source(), self.cursor as int, start_state());
                }
                self.cursor += 1;
            }
            proof {
                lemma_line_stop_after(
                    self.source(),
                    old(self).cursor as int + 1,
                    self.cursor as int,
                );
            }
            return None;
        }
        let position = Loc { line: self.line as i32, column: self.column as i32 };
        let found = Lexeme { symbol, position, offset: self.cursor };
        if known {
            self.cursor += 1;
            self.column += 1;
        } else {
            proof {
                lemma_fault_persists(self.source(), self.cursor as int + 1, start_state());
            }
        }
        Some(found)
    }

    /// Turns what `next_lexeme` handed back into a token, or into the report
    /// on a character that is not part of the language.
    fn tokenize_single_character(&self, lexeme: Option<Lexeme>) -> (r: Result<
        Option<Token>,
        LexError,
    >)
        requires
            self.content_length <= encode_utf8(self.content@).len(),
            lexeme matches Some(found) ==> found.offset < self.content_length && 1
                <= found.position.column <= found.offset + 1,
        ensures
            match lexeme {
                None => r == Ok::<Option<Token>, LexError>(None),
                Some(found) => match Intrinsic::of_symbol(found.symbol) {
                    Some(i) => r == Ok::<Option<Token>, LexError>(
                        Some(Token { intrinsic: i, position: found.position }),
                    ),
                    None => r matches Err(e) && e@ == diagnose(
                        self.source(),
                        Fault {
                            character: found.symbol,
                            position: found.position,
                            offset: found.offset as int,
                        },
                    ),
                },
            },
    {
        let found = match lexeme {
            None => {
                return Ok(None);
            },
            Some(found) => found,
        };
        match Intrinsic::from_symbol(found.symbol) {
            Some(intrinsic) => Ok(Some(Token { intrinsic, position: found.position })),
            None => {
                let before: usize = (found.position.column - 1) as usize;
                let caret: usize = if before < CONTEXT_BEFORE {
                    before
                } else {
                    CONTEXT_BEFORE
                };
                let start: usize = found.offset - caret;
                let mut end: usize = found.offset + 1;
                while end < self.content_length && end - found.offset <= CONTEXT_AFTER
                    && self.character_at(end) != '\n'
                    invariant
                        self.content_length <= encode_utf8(self.content@).len(),
                        found.offset < end <= self.content_length,
                        end <= found.offset + 1 + CONTEXT_AFTER,
                        forall|k: int|
                            found.offset < k < end ==> #[trigger] self.source()[k] as char
                                != '\n',
                    decreases self.content_length - end,
                {
                    end = end + 1;
                }
                proof {
                    lemma_line_stop_after(self.source(), found.offset as int + 1, end as int);
                }
                let mut snippet = String::new();
                let mut k: usize = start;
                while k < end
                    invariant
                        self.content_length <= encode_utf8(self.content@).len(),
                        start <= k <= end <= self.content_length,
                        snippet@ == excerpt(self.source(), start as int, k as int),
                    decreases end - k,
                {
                    snippet.push(self.character_at(k));
                    k = k + 1;
                    assert(excerpt(self.source(), start as int, k as int) == excerpt(
                        self.source(),
                        start as int,
                        k as int - 1,
                    ).push(self.source()[k as int - 1] as char));
                }
                Err(
                    LexError {
                        character: found.symbol,
                        position: found.position,
                        offset: found.offset,
                        snippet,
                        caret,
                    },
                )
            },
        }
    }

    /// Tokenizes what is left of the source.
    ///
    /// On success the tokens handed out, after those of earlier calls, are
    /// the tokens of the whole source, and the tokenizer stands at its end.
    /// On failure the error is the report on the first character of the
    /// source that is not part of the language; no token is handed out, and
    /// the tokenizer stays in front of that character.
    pub fn tokenize(&mut self) -> (r: Result<Vec<Token>, LexError>)
        requires
            old(self).wf(),
        ensures
            final(self).wf(),
            final(self).source() == old(self).source(),
            match r {
                Ok(tokens) => {
                    &&& lex(old(self).source()) == Ok::<Seq<Token>, Diagnosis>(
                        old(self).emitted() + tokens@,
                    )
                    &&& final(self).emitted() == old(self).emitted() + tokens@
                    &&& final(self).offset() == old(self).source().len()
                },
                Err(e) => {
                    &&& lex(old(self).source()) == Err::<Seq<Token>, Diagnosis>(e@)
                    &&& final(self).offset() == e.offset
                },
            },
    {
        let mut tokens: Vec<Token> = Vec::new();
        while self.cursor < self.content_length
            invariant
                self.wf(),
                self.source() == old(self).source(),
                self.content_length == old(self).content_length,
                self.emitted() == old(self).emitted() + tokens@,
            decreases self.content_length - self.cursor,
        {
            let lexeme = self.next_lexeme();
            match self.tokenize_single_character(lexeme) {
                Ok(Some(token)) => {
                    tokens.push(token);
                },
                Ok(None) => {},
                Err(e) => {
                    return Err(e);
                },
            }
        }
        proof {
            assert(self.source().take(self.cursor as int) == self.source());
        }
        Ok(tokens)
    }
}

/// The source text of a token sequence: the character of each instruction,
/// in order.
pub open spec fn source_text(tokens: Seq<Token>) -> Seq<char> {
    tokens.map_values(|t: Token| t.intrinsic.spec_symbol())
}

/// The instructions of a token sequence, without their places.
pub open spec fn instructions(tokens: Seq<Token>) -> Seq<Intrinsic> {
    tokens.map_values(|t: Token| t.intrinsic)
}

/// Writes a token sequence back as source text.
pub fn to_source(tokens: &Vec<Token>) -> (text: String)
    ensures
        text@ == source_text(tokens@),
{
    let mut text = String::new();
    let mut k: usize = 0;
    while k < tokens.len()
        invariant
            k <= tokens.len(),
            text@ == source_text(tokens@.take(k as int)),
        decreases tokens.len() - k,
    {
        text.push(tokens[k].intrinsic.symbol());
        k = k + 1;
        assert(tokens@.take(k as int) == tokens@.take(k as int - 1).push(tokens@[k as int - 1]));
    }
    assert(tokens@.take(k as int) == tokens@);
    text
}

} // verus!
